pub mod block;
pub mod cpu;
pub mod tool;
pub mod item;
pub mod rng;
pub mod xp;
pub mod world;
pub mod dimension;
pub mod structure;
pub mod biome;
pub mod redstone;
pub mod fluid;
pub mod mob;
pub mod network;
pub mod input;
