use vstd::prelude::*;

verus! {

/// The Unicode White_Space property, which `char::is_whitespace` tests.
pub open spec fn space_char(c: char) -> bool {
    let u = c as u32;
    (0x9 <= u <= 0xD) || u == 0x20 || u == 0x85 || u == 0xA0 || u == 0x1680 || (0x2000 <= u
        <= 0x200A) || u == 0x2028 || u == 0x2029 || u == 0x202F || u == 0x205F || u == 0x3000
}

pub fn is_space(c: char) -> (r: bool)
    ensures
        r == space_char(c),
{
    let u = c as u32;
    (0x9 <= u && u <= 0xD) || u == 0x20 || u == 0x85 || u == 0xA0 || u == 0x1680 || (0x2000 <= u
        && u <= 0x200A) || u == 0x2028 || u == 0x2029 || u == 0x202F || u == 0x205F || u == 0x3000
}

/// `s` without its leading white space.
pub open spec fn skip_space(s: Seq<char>) -> Seq<char>
    decreases s.len(),
{
    if s.len() > 0 && space_char(s[0]) {
        skip_space(s.skip(1))
    } else {
        s
    }
}

/// `s` without its trailing white space.
pub open spec fn drop_space_end(s: Seq<char>) -> Seq<char>
    decreases s.len(),
{
    if s.len() > 0 && space_char(s.last()) {
        drop_space_end(s.drop_last())
    } else {
        s
    }
}

/// `s` without leading and trailing white space, as `str::trim` leaves it.
pub open spec fn trimmed(s: Seq<char>) -> Seq<char> {
    drop_space_end(skip_space(s))
}

/// Length of the run of non-space characters at the start of `s`.
pub open spec fn word_len(s: Seq<char>) -> nat
    decreases s.len(),
{
    if s.len() > 0 && !space_char(s[0]) {
        1 + word_len(s.skip(1))
    } else {
        0
    }
}

/// The first whitespace-separated word of `s` (empty when `s` holds none).
pub open spec fn first_word(s: Seq<char>) -> Seq<char> {
    let t = skip_space(s);
    t.take(word_len(t) as int)
}

/// What follows the first word of `s`.
pub open spec fn after_first_word(s: Seq<char>) -> Seq<char> {
    let t = skip_space(s);
    t.skip(word_len(t) as int)
}

/// Characters of `s`, in order.
pub fn chars_of(s: &str) -> (v: Vec<char>)
    ensures
        v@ == s@,
{
    let mut v: Vec<char> = Vec::new();
    for c in it: s.chars()
        invariant
            v@ == it.seq().take(it.index() as int),
    {
        v.push(c);
    }
    v
}

/// Appends `c` to `s` (`String::push`).
#[verifier::external_body]
pub(crate) fn push_char(s: &mut String, c: char)
    ensures
        final(s)@ == old(s)@.push(c),
{
    s.push(c);
}

/// Removes and returns the last character of `s` (`String::pop`).
#[verifier::external_body]
pub(crate) fn pop_char(s: &mut String) -> (r: Option<char>)
    ensures
        old(s)@.len() == 0 ==> r is None && final(s)@ == old(s)@,
        old(s)@.len() > 0 ==> r == Some(old(s)@.last()) && final(s)@ == old(s)@.drop_last(),
{
    s.pop()
}

/// What `str::to_lowercase` makes of `s`.
pub uninterp spec fn lowercase(s: Seq<char>) -> Seq<char>;

/// `str::to_lowercase`: the Unicode lowercase mapping of `s`. The mapping is not always
/// character by character (a final capital sigma depends on its neighbours), so the result
/// is only named.
#[verifier::external_body]
pub(crate) fn to_lowercase(s: &str) -> (r: String)
    ensures
        r@ == lowercase(s@),
{
    s.to_lowercase()
}

/// A string holding the characters `v[from..to]`.
pub fn string_of(v: &Vec<char>, from: usize, to: usize) -> (s: String)
    requires
        from <= to <= v.len(),
    ensures
        s@ == v@.subrange(from as int, to as int),
{
    let mut s = String::new();
    let mut i = from;
    while i < to
        invariant
            from <= i <= to <= v.len(),
            s@ == v@.subrange(from as int, i as int),
        decreases to - i,
    {
        push_char(&mut s, v[i]);
        assert(v@.subrange(from as int, i + 1) =~= v@.subrange(from as int, i as int).push(v@[i as int]));
        i = i + 1;
    }
    s
}

/// Index of the first non-space character of `v` at or after `i`.
pub fn skip_space_from(v: &Vec<char>, i: usize) -> (j: usize)
    requires
        i <= v.len(),
    ensures
        i <= j <= v.len(),
        v@.skip(j as int) == skip_space(v@.skip(i as int)),
{
    let mut j = i;
    while j < v.len() && is_space(v[j])
        invariant
            i <= j <= v.len(),
            skip_space(v@.skip(i as int)) == skip_space(v@.skip(j as int)),
        decreases v.len() - j,
    {
        assert(v@.skip(j as int).skip(1) =~= v@.skip(j + 1));
        j = j + 1;
    }
    j
}

/// Index just past the word of `v` that starts at `i`.
pub fn word_end(v: &Vec<char>, i: usize) -> (k: usize)
    requires
        i <= v.len(),
    ensures
        i <= k <= v.len(),
        k - i == word_len(v@.skip(i as int)),
        v@.skip(i as int).take(word_len(v@.skip(i as int)) as int) == v@.subrange(i as int, k as int),
        v@.skip(i as int).skip(word_len(v@.skip(i as int)) as int) == v@.skip(k as int),
{
    let mut k = i;
    while k < v.len() && !is_space(v[k])
        invariant
            i <= k <= v.len(),
            word_len(v@.skip(i as int)) == (k - i) + word_len(v@.skip(k as int)),
            forall|t: int| i <= t < k ==> !space_char(#[trigger] v@[t]),
        decreases v.len() - k,
    {
        assert(v@.skip(k as int).skip(1) =~= v@.skip(k + 1));
        k = k + 1;
    }
    proof {
        let n = word_len(v@.skip(i as int));
        assert(n == k - i);
        assert(v@.skip(i as int).take(n as int) =~= v@.subrange(i as int, k as int));
        assert(v@.skip(i as int).skip(n as int) =~= v@.skip(k as int));
    }
    k
}

/// `s` with leading and trailing white space removed (`str::trim`).
pub fn trim(s: &str) -> (r: String)
    ensures
        r@ == trimmed(s@),
{
    let v = chars_of(s);
    let start = skip_space_from(&v, 0);
    assert(v@.skip(0) =~= v@);
    let mut end = v.len();
    assert(v@.skip(start as int) =~= v@.subrange(start as int, end as int));
    while end > start && is_space(v[end - 1])
        invariant
            start <= end <= v.len(),
            drop_space_end(v@.skip(start as int)) == drop_space_end(v@.subrange(start as int, end as int)),
        decreases end - start,
    {
        assert(v@.subrange(start as int, end as int).drop_last() =~= v@.subrange(start as int, end - 1));
        end = end - 1;
    }
    string_of(&v, start, end)
}

} // verus!
