//! Core of a voxel world engine: chunk addressing, face-culling meshing,
//! the chunk registry, level-of-detail selection and job scheduling.

pub mod chunk_id;
pub mod face_lemmas;
pub mod frustum;
pub mod frustum_lemmas;
pub mod input;
pub mod job;
pub mod keys;
pub mod level;
pub mod mesh;
pub mod meshing;
pub mod random;
pub mod server;
pub mod texture;
pub mod threadpool;
pub mod time;
pub mod voxel;
pub mod world_gen;
