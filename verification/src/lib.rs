//! Sparse voxel worlds: bricks, 64-trees and the chunked world over them.

pub mod amplify;
pub mod arrival;
pub mod audio;
pub mod bits;
pub mod brick;
pub mod cache;
pub mod chunkgen;
pub mod cli;
pub mod controls;
pub mod coords;
pub mod demo;
pub mod erosion;
pub mod flora;
pub mod footprint;
pub mod gamepad;
pub mod gpu_layout;
pub mod grid;
pub mod icons;
pub mod input;
pub mod inventory;
pub mod item;
pub mod ivec;
pub mod karst;
pub mod key;
pub mod lod;
pub mod march;
pub mod material;
pub mod measure;
pub mod noise;
pub mod rand;
pub mod samples;
pub mod settlement;
pub mod sort;
pub mod strata;
pub mod stream;
pub mod tally;
pub mod tectonics;
pub mod tree;
pub mod window;
pub mod world;
