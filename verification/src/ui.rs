use vstd::prelude::*;
use std::collections::VecDeque;
use crate::text::{
    after_first_word, chars_of, first_word, lowercase, pop_char, push_char, skip_space,
    skip_space_from, string_of, to_lowercase, trim, trimmed, word_end,
};

verus! {

/// Lines the terminal keeps; the oldest goes when a new one would exceed this.
pub const MAX_LOG_HISTORY: usize = 100;

/// Entries of the pause menu: resume, restart, back to the terminal.
pub const PAUSE_MENU_LEN: usize = 3;

#[derive(PartialEq, Eq, Structural, Clone, Copy, Debug)]
pub enum GameState {
    Terminal,
    Playing,
    Pause,
}

/// Colour of a terminal line.
#[derive(PartialEq, Eq, Structural, Clone, Copy, Debug)]
pub enum LineColor {
    Green,
    Red,
    LightGray,
}

pub struct TuiLine {
    pub text: String,
    pub color: LineColor,
}

impl TuiLine {
    pub fn new(text: String, color: LineColor) -> (r: Self)
        ensures
            r.text == text,
            r.color == color,
    {
        TuiLine { text, color }
    }
}

/// Keys of one frame that the terminal and the pause menu read.
#[derive(Clone, Copy)]
pub struct MenuKeys {
    pub menu_up: bool,
    pub menu_down: bool,
    pub menu_del: bool,
    pub menu_ent: bool,
    pub pause_pressed: bool,
}

/// What a terminal command asks of the program around the game.
pub enum TerminalAction {
    Nothing,
    Exit,
    SetFullscreen(bool),
    /// `set-volume` with its first argument, if it has one.
    SetVolume(Option<String>),
}

/// `TerminalAction` with strings taken by their characters.
pub enum ActionView {
    Nothing,
    Exit,
    SetFullscreen(bool),
    SetVolume(Option<Seq<char>>),
}

pub open spec fn action_view(a: TerminalAction) -> ActionView {
    match a {
        TerminalAction::Nothing => ActionView::Nothing,
        TerminalAction::Exit => ActionView::Exit,
        TerminalAction::SetFullscreen(f) => ActionView::SetFullscreen(f),
        TerminalAction::SetVolume(None) => ActionView::SetVolume(None),
        TerminalAction::SetVolume(Some(s)) => ActionView::SetVolume(Some(s@)),
    }
}

pub struct UiManager {
    pub game_state: GameState,
    pub previous_state: GameState,
    pub fullscreen: bool,
    pub restart_requested: bool,
    pub input_buffer: String,
    pub history: VecDeque<TuiLine>,
    pub cmd_history: Vec<String>,
    pub cmd_history_idx: Option<usize>,
    pub pause_selected_idx: usize,
    pub boot_logs_idx: usize,
}

/// The terminal's state with strings taken by their characters.
pub struct UiModel {
    pub game_state: GameState,
    pub previous_state: GameState,
    pub fullscreen: bool,
    pub restart_requested: bool,
    pub buffer: Seq<char>,
    pub log: Seq<(Seq<char>, LineColor)>,
    pub commands: Seq<Seq<char>>,
    pub cmd_idx: Option<usize>,
    pub pause_idx: usize,
    pub boot_idx: usize,
}

pub open spec fn lines_view(h: Seq<TuiLine>) -> Seq<(Seq<char>, LineColor)> {
    h.map_values(|l: TuiLine| (l.text@, l.color))
}

impl View for UiManager {
    type V = UiModel;

    open spec fn view(&self) -> UiModel {
        UiModel {
            game_state: self.game_state,
            previous_state: self.previous_state,
            fullscreen: self.fullscreen,
            restart_requested: self.restart_requested,
            buffer: self.input_buffer@,
            log: lines_view(self.history@),
            commands: self.cmd_history@.map_values(|c: String| c@),
            cmd_idx: self.cmd_history_idx,
            pause_idx: self.pause_selected_idx,
            boot_idx: self.boot_logs_idx,
        }
    }
}

/// The terminal log after `line` is written: the oldest line goes once the log is full.
pub open spec fn append_line(h: Seq<(Seq<char>, LineColor)>, line: (Seq<char>, LineColor)) -> Seq<(Seq<char>, LineColor)> {
    if h.len() >= MAX_LOG_HISTORY {
        h.skip(1).push(line)
    } else {
        h.push(line)
    }
}

pub open spec fn model_ok(m: UiModel) -> bool {
    &&& m.log.len() <= MAX_LOG_HISTORY
    &&& m.pause_idx < PAUSE_MENU_LEN
    &&& m.cmd_idx matches Some(i) ==> i < m.commands.len()
}

pub open spec fn with_state(m: UiModel, s: GameState) -> UiModel {
    UiModel { previous_state: m.game_state, game_state: s, ..m }
}

pub open spec fn with_log(m: UiModel, text: Seq<char>, color: LineColor) -> UiModel {
    UiModel { log: append_line(m.log, (text, color)), ..m }
}

pub open spec fn bool_text(b: bool) -> Seq<char> {
    if b {
        "true"@
    } else {
        "false"@
    }
}

/// Name of a game state, as the `status` command reports it.
pub open spec fn state_text(s: GameState) -> Seq<char> {
    match s {
        GameState::Terminal => "terminal"@,
        GameState::Playing => "playing"@,
        GameState::Pause => "paused"@,
    }
}

/// Effect of the terminal command `raw`: its first word, lowercased, picks the command and
/// its second word is the argument of `set-volume`.
pub open spec fn command_step(m: UiModel, raw: Seq<char>) -> (UiModel, ActionView) {
    if skip_space(raw).len() == 0 {
        (m, ActionView::Nothing)
    } else {
        let cmd = lowercase(first_word(raw));
        let rest = after_first_word(raw);
        if cmd == "start"@ || cmd == "resume"@ {
            (with_log(with_state(m, GameState::Playing), "Game started."@, LineColor::Green), ActionView::Nothing)
        } else if cmd == "pause"@ {
            (with_log(with_state(m, GameState::Pause), "Game paused."@, LineColor::Green), ActionView::Nothing)
        } else if cmd == "restart"@ {
            (
                with_log(
                    with_state(UiModel { restart_requested: true, ..m }, GameState::Playing),
                    "Restarting level..."@,
                    LineColor::Green,
                ),
                ActionView::Nothing,
            )
        } else if cmd == "clear"@ {
            (UiModel { log: Seq::empty(), ..m }, ActionView::Nothing)
        } else if cmd == "exit"@ || cmd == "quit"@ {
            (m, ActionView::Exit)
        } else if cmd == "set-volume"@ {
            (
                m,
                ActionView::SetVolume(
                    if skip_space(rest).len() > 0 {
                        Some(first_word(rest))
                    } else {
                        None
                    },
                ),
            )
        } else if cmd == "set-fullscreen"@ {
            let f = !m.fullscreen;
            (
                with_log(UiModel { fullscreen: f, ..m }, "Fullscreen: "@ + bool_text(f), LineColor::Green),
                ActionView::SetFullscreen(f),
            )
        } else if cmd == "boot"@ {
            (UiModel { log: Seq::empty(), boot_idx: 0, ..m }, ActionView::Nothing)
        } else if cmd == "status"@ {
            (with_log(m, "Status: "@ + state_text(m.game_state), LineColor::Green), ActionView::Nothing)
        } else if cmd == "help"@ {
            (
                with_log(
                    m,
                    "Commands: start, pause, resume, restart, status, set-volume <0-100>, set-fullscreen, clear, boot, exit"@,
                    LineColor::LightGray,
                ),
                ActionView::Nothing,
            )
        } else {
            (with_log(m, "Unknown command: '"@ + cmd + "'"@, LineColor::Red), ActionView::Nothing)
        }
    }
}

/// The pause menu after one frame of `keys`.
pub open spec fn pause_step(m: UiModel, keys: MenuKeys) -> UiModel {
    let i1: usize = if keys.menu_up { ((m.pause_idx + PAUSE_MENU_LEN - 1) % PAUSE_MENU_LEN as int) as usize } else { m.pause_idx };
    let i2: usize = if keys.menu_down { ((i1 + 1) % PAUSE_MENU_LEN as int) as usize } else { i1 };
    let m2 = UiModel { pause_idx: i2, ..m };
    if keys.menu_ent {
        if i2 == 0 {
            with_state(m2, GameState::Playing)
        } else if i2 == 1 {
            with_state(UiModel { restart_requested: true, ..m2 }, GameState::Playing)
        } else if i2 == 2 {
            with_state(m2, GameState::Terminal)
        } else {
            m2
        }
    } else {
        m2
    }
}


/// Characters the terminal accepts from the keyboard: printable ones except ` and ~.
pub open spec fn typed_ok(c: char) -> bool {
    (c as u32) >= 0x20 && c != '`' && c != '~'
}

pub open spec fn keep_typed(t: Seq<char>) -> Seq<char>
    decreases t.len(),
{
    if t.len() == 0 {
        Seq::empty()
    } else {
        keep_typed(t.drop_last()) + if typed_ok(t.last()) {
            seq![t.last()]
        } else {
            Seq::empty()
        }
    }
}

/// Browsing the command history: up goes to the previous command (from the newest when none
/// is selected), down to the next one or, past the newest, back to an empty line.
pub open spec fn navigate(m: UiModel, up: bool, down: bool) -> UiModel {
    if up && m.commands.len() > 0 {
        let idx: usize = match m.cmd_idx {
            None => (m.commands.len() - 1) as usize,
            Some(i) => if i > 0 { (i - 1) as usize } else { 0 },
        };
        UiModel { cmd_idx: Some(idx), buffer: m.commands[idx as int], ..m }
    } else if down {
        match m.cmd_idx {
            Some(i) => if i + 1 < m.commands.len() {
                UiModel { cmd_idx: Some((i + 1) as usize), buffer: m.commands[i + 1], ..m }
            } else {
                UiModel { cmd_idx: None, buffer: Seq::empty(), ..m }
            },
            None => m,
        }
    } else {
        m
    }
}

/// Enter runs the trimmed input line, when it is not empty: the line is echoed after the
/// prompt, run, and kept in the command history.
pub open spec fn enter_step(m: UiModel) -> (UiModel, ActionView) {
    let cmd = trimmed(m.buffer);
    if cmd.len() > 0 {
        let m1 = with_log(m, "user@zinux:~$ "@ + cmd, LineColor::Green);
        let (m2, a) = command_step(m1, cmd);
        (UiModel { commands: m2.commands.push(cmd), cmd_idx: None, buffer: Seq::empty(), ..m2 }, a)
    } else {
        (m, ActionView::Nothing)
    }
}

/// One frame of the terminal: typed characters, backspace, history browsing, then Enter.
pub open spec fn terminal_step(m: UiModel, keys: MenuKeys, typed: Seq<char>) -> (UiModel, ActionView) {
    let m1 = UiModel { buffer: m.buffer + keep_typed(typed), ..m };
    let m2 = if keys.menu_del && m1.buffer.len() > 0 {
        UiModel { buffer: m1.buffer.drop_last(), ..m1 }
    } else {
        m1
    };
    let m3 = navigate(m2, keys.menu_up, keys.menu_down);
    if keys.menu_ent {
        enter_step(m3)
    } else {
        (m3, ActionView::Nothing)
    }
}

/// Escape switches between playing and the pause menu.
pub open spec fn pause_toggle(m: UiModel) -> UiModel {
    if m.game_state == GameState::Playing {
        with_state(m, GameState::Pause)
    } else if m.game_state == GameState::Pause {
        with_state(m, GameState::Playing)
    } else {
        m
    }
}

/// One frame of the interface: Escape, then the pause menu or the terminal, whichever is shown.
pub open spec fn ui_step(m: UiModel, keys: MenuKeys, typed: Seq<char>) -> (UiModel, ActionView) {
    let m1 = if keys.pause_pressed {
        pause_toggle(m)
    } else {
        m
    };
    if m1.game_state == GameState::Pause {
        (pause_step(m1, keys), ActionView::Nothing)
    } else if m1.game_state == GameState::Terminal {
        terminal_step(m1, keys, typed)
    } else {
        (m1, ActionView::Nothing)
    }
}

fn text(s: &str) -> (r: String)
    ensures
        r@ == s@,
{
    String::from_str(s)
}

impl UiManager {
    pub open spec fn wf(self) -> bool {
        model_ok(self@)
    }

    /// The interface as the game starts: the terminal, full screen, nothing logged or typed.
    pub fn new() -> (ui: Self)
        ensures
            ui.wf(),
            ui@.game_state == GameState::Terminal,
            ui@.previous_state == GameState::Terminal,
            ui@.fullscreen,
            !ui@.restart_requested,
            ui@.buffer.len() == 0,
            ui@.log.len() == 0,
            ui@.commands.len() == 0,
            ui@.cmd_idx is None,
            ui@.pause_idx == 0,
            ui@.boot_idx == 0,
    {
        let mut ui = UiManager {
            game_state: GameState::Terminal,
            previous_state: GameState::Terminal,
            fullscreen: true,
            restart_requested: false,
            input_buffer: String::new(),
            history: VecDeque::new(),
            cmd_history: Vec::new(),
            cmd_history_idx: None,
            pause_selected_idx: 0,
            boot_logs_idx: 0,
        };
        ui.run_boot_sequence();
        assert(ui@.commands =~= Seq::<Seq<char>>::empty());
        ui
    }

    pub fn change_state(&mut self, new_state: GameState)
        requires
            old(self).wf(),
        ensures
            final(self).wf(),
            final(self)@ == with_state(old(self)@, new_state),
    {
        self.previous_state = self.game_state;
        self.game_state = new_state;
    }

    /// Writes a line to the terminal log, dropping the oldest line once the log is full.
    pub fn log(&mut self, text: String, color: LineColor)
        requires
            old(self).wf(),
        ensures
            final(self).wf(),
            final(self)@ == with_log(old(self)@, text@, color),
    {
        let ghost h0 = self.history@;
        let line = TuiLine::new(text, color);
        if self.history.len() >= MAX_LOG_HISTORY {
            self.history.pop_front();
        }
        self.history.push_back(line);
        proof {
            if h0.len() >= MAX_LOG_HISTORY {
                assert(lines_view(self.history@) =~= lines_view(h0).skip(1).push((text@, color)));
            } else {
                assert(lines_view(self.history@) =~= lines_view(h0).push((text@, color)));
            }
        }
    }

    /// Clears the log and starts the boot lines over.
    pub fn run_boot_sequence(&mut self)
        requires
            old(self).wf(),
        ensures
            final(self).wf(),
            final(self)@ == (UiModel { log: Seq::empty(), boot_idx: 0, ..old(self)@ }),
    {
        self.history.clear();
        self.boot_logs_idx = 0;
        assert(lines_view(self.history@) =~= Seq::empty());
    }

    /// Boot lines are left to show, of `boot_logs_len` in all.
    pub fn boot_pending(&self, boot_logs_len: usize) -> (r: bool)
        ensures
            r == (self.boot_logs_idx < boot_logs_len),
    {
        self.boot_logs_idx < boot_logs_len
    }

    /// Shows the next boot line.
    pub fn advance_boot(&mut self, boot_logs: &Vec<String>)
        requires
            old(self).wf(),
            old(self).boot_logs_idx < boot_logs.len(),
        ensures
            final(self).wf(),
            final(self)@ == (UiModel {
                boot_idx: (old(self)@.boot_idx + 1) as usize,
                ..with_log(old(self)@, boot_logs@[old(self)@.boot_idx as int]@, LineColor::LightGray)
            }),
    {
        let line = boot_logs[self.boot_logs_idx].clone();
        self.log(line, LineColor::LightGray);
        self.boot_logs_idx = self.boot_logs_idx + 1;
    }

    fn update_pause_menu(&mut self, keys: MenuKeys)
        requires
            old(self).wf(),
        ensures
            final(self).wf(),
            final(self)@ == pause_step(old(self)@, keys),
    {
        let count = PAUSE_MENU_LEN;
        if keys.menu_up {
            self.pause_selected_idx = (self.pause_selected_idx + count - 1) % count;
        }
        if keys.menu_down {
            self.pause_selected_idx = (self.pause_selected_idx + 1) % count;
        }
        if keys.menu_ent {
            if self.pause_selected_idx == 0 {
                self.change_state(GameState::Playing);
            } else if self.pause_selected_idx == 1 {
                self.restart_requested = true;
                self.change_state(GameState::Playing);
            } else if self.pause_selected_idx == 2 {
                self.change_state(GameState::Terminal);
            }
        }
    }

    fn handle_history_navigation(&mut self, up: bool, down: bool)
        requires
            old(self).wf(),
        ensures
            final(self).wf(),
            final(self)@ == navigate(old(self)@, up, down),
    {
        if up && self.cmd_history.len() > 0 {
            let idx = match self.cmd_history_idx {
                None => self.cmd_history.len() - 1,
                Some(i) => if i > 0 {
                    i - 1
                } else {
                    0
                },
            };
            self.cmd_history_idx = Some(idx);
            self.input_buffer = self.cmd_history[idx].clone();
        } else if down {
            match self.cmd_history_idx {
                Some(idx) => {
                    assert(self@.commands.len() == self.cmd_history@.len());
                    assert(model_ok(self@));
                    assert(self@.cmd_idx == Some(idx));
                    assert(idx < self.cmd_history.len());
                    if idx + 1 < self.cmd_history.len() {
                        self.cmd_history_idx = Some(idx + 1);
                        self.input_buffer = self.cmd_history[idx + 1].clone();
                    } else {
                        self.cmd_history_idx = None;
                        self.input_buffer = String::new();
                    }
                },
                None => {},
            }
        }
    }
}


impl UiManager {
    fn execute_command(&mut self, raw_cmd: &str) -> (r: TerminalAction)
        requires
            old(self).wf(),
        ensures
            final(self).wf(),
            (final(self)@, action_view(r)) == command_step(old(self)@, raw_cmd@),
    {
        let v = chars_of(raw_cmd);
        let start = skip_space_from(&v, 0);
        assert(v@.skip(0) =~= v@);
        if start == v.len() {
            return TerminalAction::Nothing;
        }
        let end = word_end(&v, start);
        let word = string_of(&v, start, end);
        let cmd = to_lowercase(word.as_str());
        let ghost rest = after_first_word(raw_cmd@);
        assert(word@ == first_word(raw_cmd@));
        assert(rest == v@.skip(end as int));
        if cmd.eq(&text("start")) || cmd.eq(&text("resume")) {
            self.change_state(GameState::Playing);
            self.log(text("Game started."), LineColor::Green);
            TerminalAction::Nothing
        } else if cmd.eq(&text("pause")) {
            self.change_state(GameState::Pause);
            self.log(text("Game paused."), LineColor::Green);
            TerminalAction::Nothing
        } else if cmd.eq(&text("restart")) {
            self.restart_requested = true;
            self.change_state(GameState::Playing);
            self.log(text("Restarting level..."), LineColor::Green);
            TerminalAction::Nothing
        } else if cmd.eq(&text("clear")) {
            self.history.clear();
            assert(lines_view(self.history@) =~= Seq::empty());
            TerminalAction::Nothing
        } else if cmd.eq(&text("exit")) || cmd.eq(&text("quit")) {
            TerminalAction::Exit
        } else if cmd.eq(&text("set-volume")) {
            let a0 = skip_space_from(&v, end);
            if a0 < v.len() {
                let a1 = word_end(&v, a0);
                TerminalAction::SetVolume(Some(string_of(&v, a0, a1)))
            } else {
                TerminalAction::SetVolume(None)
            }
        } else if cmd.eq(&text("set-fullscreen")) {
            self.fullscreen = !self.fullscreen;
            let mut line = text("Fullscreen: ");
            if self.fullscreen {
                line.append("true");
            } else {
                line.append("false");
            }
            self.log(line, LineColor::Green);
            TerminalAction::SetFullscreen(self.fullscreen)
        } else if cmd.eq(&text("boot")) {
            self.run_boot_sequence();
            TerminalAction::Nothing
        } else if cmd.eq(&text("status")) {
            let mut line = text("Status: ");
            match self.game_state {
                GameState::Terminal => line.append("terminal"),
                GameState::Playing => line.append("playing"),
                GameState::Pause => line.append("paused"),
            }
            self.log(line, LineColor::Green);
            TerminalAction::Nothing
        } else if cmd.eq(&text("help")) {
            self.log(
                text(
                    "Commands: start, pause, resume, restart, status, set-volume <0-100>, set-fullscreen, clear, boot, exit",
                ),
                LineColor::LightGray,
            );
            TerminalAction::Nothing
        } else {
            let mut line = text("Unknown command: '");
            line.append(cmd.as_str());
            line.append("'");
            self.log(line, LineColor::Red);
            TerminalAction::Nothing
        }
    }

    fn update_terminal_input(&mut self, keys: MenuKeys, typed: &Vec<char>) -> (r: TerminalAction)
        requires
            old(self).wf(),
        ensures
            final(self).wf(),
            (final(self)@, action_view(r)) == terminal_step(old(self)@, keys, typed@),
    {
        let ghost b0 = self.input_buffer@;
        let ghost m0 = self@;
        let mut i: usize = 0;
        assert(typed@.take(0) =~= Seq::<char>::empty());
        assert(b0 + keep_typed(typed@.take(0)) =~= b0);
        while i < typed.len()
            invariant
                i <= typed.len(),
                self.input_buffer@ == b0 + keep_typed(typed@.take(i as int)),
                self@ == (UiModel { buffer: b0 + keep_typed(typed@.take(i as int)), ..m0 }),
                model_ok(m0),
            decreases typed.len() - i,
        {
            let c = typed[i];
            let ghost before = self.input_buffer@;
            assert(typed@.take(i + 1).drop_last() =~= typed@.take(i as int));
            if (c as u32) >= 0x20 && c != '`' && c != '~' {
                push_char(&mut self.input_buffer, c);
                assert(self.input_buffer@ =~= b0 + keep_typed(typed@.take(i + 1)));
            } else {
                assert(self.input_buffer@ =~= b0 + keep_typed(typed@.take(i + 1)));
            }
            i = i + 1;
        }
        assert(typed@.take(typed.len() as int) =~= typed@);
        if keys.menu_del {
            pop_char(&mut self.input_buffer);
        }
        self.handle_history_navigation(keys.menu_up, keys.menu_down);
        if keys.menu_ent {
            let cmd = trim(self.input_buffer.as_str());
            if !cmd.as_str().is_empty() {
                let mut prompt = text("user@zinux:~$ ");
                prompt.append(cmd.as_str());
                self.log(prompt, LineColor::Green);
                let action = self.execute_command(cmd.as_str());
                let ghost c0 = self.cmd_history@;
                self.cmd_history.push(cmd);
                assert(self.cmd_history@.map_values(|c: String| c@) =~= c0.map_values(|c: String| c@).push(cmd@));
                self.cmd_history_idx = None;
                self.input_buffer = String::new();
                return action;
            }
        }
        TerminalAction::Nothing
    }

    /// One frame of the interface: Escape toggles the pause menu while playing, then the pause
    /// menu or the terminal, whichever is shown, reads `keys`; the terminal also takes the
    /// characters typed this frame.
    pub fn update(&mut self, keys: MenuKeys, typed: &Vec<char>) -> (r: TerminalAction)
        requires
            old(self).wf(),
        ensures
            final(self).wf(),
            (final(self)@, action_view(r)) == ui_step(old(self)@, keys, typed@),
            keys.pause_pressed && old(self).game_state == GameState::Pause ==> (final(self).game_state
                == GameState::Playing && final(self).previous_state == GameState::Pause),
            keys.pause_pressed && old(self).game_state == GameState::Playing ==> (final(self).previous_state
                != GameState::Terminal),
    {
        if keys.pause_pressed {
            match self.game_state {
                GameState::Playing => self.change_state(GameState::Pause),
                GameState::Pause => self.change_state(GameState::Playing),
                GameState::Terminal => {},
            }
        }
        match self.game_state {
            GameState::Pause => {
                self.update_pause_menu(keys);
                TerminalAction::Nothing
            },
            GameState::Terminal => self.update_terminal_input(keys, typed),
            GameState::Playing => TerminalAction::Nothing,
        }
    }

    /// Level restarts owed at the start of a frame: one when play has just resumed from the
    /// terminal, one for a pending restart request; both are then settled.
    pub fn pending_restarts(&mut self) -> (n: u32)
        requires
            old(self).wf(),
        ensures
            final(self).wf(),
            n == (if old(self)@.game_state == GameState::Playing && old(self)@.previous_state
                == GameState::Terminal { 1u32 } else { 0u32 }) + (if old(self)@.restart_requested {
                1u32
            } else {
                0u32
            }),
            final(self)@ == (UiModel {
                previous_state: if old(self)@.game_state == GameState::Playing
                    && old(self)@.previous_state == GameState::Terminal {
                    GameState::Playing
                } else {
                    old(self)@.previous_state
                },
                restart_requested: false,
                ..old(self)@
            }),
    {
        let mut n: u32 = 0;
        if self.game_state == GameState::Playing && self.previous_state == GameState::Terminal {
            n = n + 1;
            self.previous_state = GameState::Playing;
        }
        if self.restart_requested {
            n = n + 1;
            self.restart_requested = false;
        }
        n
    }
}


pub open spec fn keys_only(up: bool, down: bool, del: bool, ent: bool, pause: bool) -> MenuKeys {
    MenuKeys { menu_up: up, menu_down: down, menu_del: del, menu_ent: ent, pause_pressed: pause }
}

/// Law: the log never holds more than `MAX_LOG_HISTORY` lines; writing a line keeps the newest
/// lines in order and puts the new one last.
pub proof fn lemma_log_keeps_newest(h: Seq<(Seq<char>, LineColor)>, line: (Seq<char>, LineColor))
    requires
        h.len() <= MAX_LOG_HISTORY,
    ensures
        append_line(h, line).len() <= MAX_LOG_HISTORY,
        append_line(h, line).last() == line,
        append_line(h, line) == h.push(line).skip(h.push(line).len() - append_line(h, line).len()),
{
    if h.len() >= MAX_LOG_HISTORY {
        assert(h.skip(1).push(line) =~= h.push(line).skip(1));
    } else {
        assert(h.push(line).skip(0) =~= h.push(line));
    }
}

/// Law: in the pause menu, one step up and then one step down select the entry selected before.
pub proof fn lemma_pause_menu_round_trip(m: UiModel)
    requires
        model_ok(m),
    ensures
        pause_step(
            pause_step(m, keys_only(true, false, false, false, false)),
            keys_only(false, true, false, false, false),
        ).pause_idx == m.pause_idx,
{
}

/// Law: pressing Escape twice comes back to the state of the start: playing and the pause
/// menu swap twice, and the terminal ignores the key.
pub proof fn lemma_escape_twice(m: UiModel, typed: Seq<char>)
    requires
        model_ok(m),
    ensures
        ui_step(
            ui_step(m, keys_only(false, false, false, false, true), typed).0,
            keys_only(false, false, false, false, true),
            typed,
        ).0.game_state == m.game_state,
{
}

/// Law: Escape while playing or paused swaps the two and remembers the state it left, so
/// leaving the pause menu never counts as coming back from the terminal.
pub proof fn lemma_escape_remembers(m: UiModel, typed: Seq<char>)
    requires
        model_ok(m),
        m.game_state != GameState::Terminal,
    ensures
        ui_step(m, keys_only(false, false, false, false, true), typed).0.previous_state
            == m.game_state,
        ui_step(m, keys_only(false, false, false, false, true), typed).0.game_state
            != m.game_state,
        ui_step(m, keys_only(false, false, false, false, true), typed).0.game_state
            != GameState::Terminal,
{
}

/// Law: outside the terminal, no step of the interface makes play look resumed from the
/// terminal (playing, with the terminal as the previous state) unless it already was: only the
/// terminal's own commands lead to a restart of that kind.
pub proof fn lemma_no_resume_without_terminal(m: UiModel, keys: MenuKeys, typed: Seq<char>)
    requires
        model_ok(m),
        m.game_state != GameState::Terminal,
        !(m.game_state == GameState::Playing && m.previous_state == GameState::Terminal),
    ensures
        !(ui_step(m, keys, typed).0.game_state == GameState::Playing && ui_step(
            m,
            keys,
            typed,
        ).0.previous_state == GameState::Terminal),
{
}

/// Law: the terminal's commands move the game as their names say. `start` and `resume` play,
/// `pause` pauses, `restart` plays and asks for a restart, each remembering the state it left;
/// every other command leaves the game state and any restart request as they were.
pub proof fn lemma_commands_move_states(m: UiModel, raw: Seq<char>)
    requires
        skip_space(raw).len() > 0,
    ensures
        ({
            let cmd = lowercase(first_word(raw));
            let r = command_step(m, raw).0;
            &&& (cmd == "start"@ || cmd == "resume"@) ==> r.game_state == GameState::Playing
                && r.previous_state == m.game_state && r.restart_requested == m.restart_requested
            &&& cmd == "pause"@ ==> r.game_state == GameState::Pause && r.previous_state
                == m.game_state && r.restart_requested == m.restart_requested
            &&& cmd == "restart"@ ==> r.game_state == GameState::Playing && r.previous_state
                == m.game_state && r.restart_requested
            &&& !(cmd == "start"@ || cmd == "resume"@ || cmd == "pause"@ || cmd == "restart"@) ==> (
            r.game_state == m.game_state && r.previous_state == m.previous_state
                && r.restart_requested == m.restart_requested)
        }),
{
    reveal_strlit("start");
    reveal_strlit("resume");
    reveal_strlit("pause");
    reveal_strlit("restart");
    reveal_strlit("clear");
    reveal_strlit("exit");
    reveal_strlit("quit");
    reveal_strlit("set-volume");
    reveal_strlit("set-fullscreen");
    reveal_strlit("help");
    reveal_strlit("boot");
    reveal_strlit("status");
    assert("pause"@[0] != "start"@[0] && "pause"@[0] != "resume"@[0]);
    assert("restart"@.len() != "start"@.len() && "restart"@[3] != "resume"@[3] && "restart"@[0] != "pause"@[0]);
    assert("resume"@.len() != "start"@.len());
}

/// Law: in the pause menu, Enter on the first entry resumes play, on the second resumes and
/// asks for a restart, on the third goes to the terminal; each remembers the pause menu as the
/// state it left. Up and down move the selection around the three entries.
pub proof fn lemma_pause_menu_entries(m: UiModel, keys: MenuKeys)
    requires
        model_ok(m),
        m.game_state == GameState::Pause,
    ensures
        ({
            let r = pause_step(m, keys);
            &&& r.pause_idx < PAUSE_MENU_LEN
            &&& !keys.menu_up && !keys.menu_down ==> r.pause_idx == m.pause_idx
            &&& keys.menu_down && !keys.menu_up ==> r.pause_idx == (if m.pause_idx == 2 {
                0
            } else {
                m.pause_idx + 1
            })
            &&& keys.menu_up && !keys.menu_down ==> r.pause_idx == (if m.pause_idx == 0 {
                2
            } else {
                m.pause_idx - 1
            })
            &&& !keys.menu_ent ==> r.game_state == GameState::Pause && r.restart_requested
                == m.restart_requested
            &&& keys.menu_ent ==> r.previous_state == GameState::Pause
            &&& keys.menu_ent && r.pause_idx == 0 ==> r.game_state == GameState::Playing
                && r.restart_requested == m.restart_requested
            &&& keys.menu_ent && r.pause_idx == 1 ==> r.game_state == GameState::Playing
                && r.restart_requested
            &&& keys.menu_ent && r.pause_idx == 2 ==> r.game_state == GameState::Terminal
                && r.restart_requested == m.restart_requested
        }),
{
}

/// Law: every step of the interface keeps its invariant: the log within bounds, the pause
/// selection on a menu entry, the history selection on a command.
#[verifier::rlimit(30)]
pub proof fn lemma_ui_step_keeps_invariant(m: UiModel, keys: MenuKeys, typed: Seq<char>)
    requires
        model_ok(m),
    ensures
        model_ok(ui_step(m, keys, typed).0),
{
    let m1 = if keys.pause_pressed { pause_toggle(m) } else { m };
    if m1.game_state == GameState::Terminal {
        let m2 = UiModel { buffer: m1.buffer + keep_typed(typed), ..m1 };
        let m3 = if keys.menu_del && m2.buffer.len() > 0 {
            UiModel { buffer: m2.buffer.drop_last(), ..m2 }
        } else {
            m2
        };
        let m4 = navigate(m3, keys.menu_up, keys.menu_down);
        if keys.menu_ent {
            let cmd = trimmed(m4.buffer);
            if cmd.len() > 0 {
                let m5 = with_log(m4, "user@zinux:~$ "@ + cmd, LineColor::Green);
                lemma_log_keeps_newest(m4.log, ("user@zinux:~$ "@ + cmd, LineColor::Green));
                lemma_command_keeps_invariant(m5, cmd);
            }
        }
    }
}

proof fn lemma_command_keeps_invariant(m: UiModel, raw: Seq<char>)
    requires
        model_ok(m),
    ensures
        model_ok(command_step(m, raw).0),
{
    let cmd = lowercase(first_word(raw));
    lemma_log_keeps_newest(m.log, ("Game started."@, LineColor::Green));
    lemma_log_keeps_newest(m.log, ("Game paused."@, LineColor::Green));
    lemma_log_keeps_newest(m.log, ("Restarting level..."@, LineColor::Green));
    lemma_log_keeps_newest(m.log, ("Fullscreen: "@ + bool_text(!m.fullscreen), LineColor::Green));
    lemma_log_keeps_newest(
        m.log,
        (
            "Commands: start, pause, resume, restart, status, set-volume <0-100>, set-fullscreen, clear, boot, exit"@,
            LineColor::LightGray,
        ),
    );
    lemma_log_keeps_newest(m.log, ("Unknown command: '"@ + cmd + "'"@, LineColor::Red));
    lemma_log_keeps_newest(m.log, ("Status: "@ + state_text(m.game_state), LineColor::Green));
}

} // verus!
