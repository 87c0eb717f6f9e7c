pub mod tilemap;
pub mod tiled;
pub mod text;
pub mod ui;
pub mod objects;
pub mod entity;
pub mod player;
pub mod enemy;
pub mod level;
pub mod input;
