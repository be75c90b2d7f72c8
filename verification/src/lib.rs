//! Decision logic of an image-archive processing service: which archive
//! kind a file name denotes, how the processing pipeline proceeds, how
//! images are split and shrunk, how output files are named and which
//! command lines drive the external archiver.

pub mod decimal;
pub mod text;
pub mod paths;
pub mod transform;
pub mod controller;
pub mod archive;
pub mod command;
pub mod route;
pub mod downloader;
pub mod picture;
