pub mod assets;
pub mod bytes;
pub mod clock;
pub mod component;
pub mod components;
pub mod door;
pub mod entities;
pub mod fixed;
pub mod geometry;
pub mod level;
pub mod lumps;
pub mod map;
pub mod physics;
pub mod protocol;
pub mod quadtree;
pub mod spawn;
pub mod sprite;
pub mod textures;
pub mod world;
