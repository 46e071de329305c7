//! A verified ray-tracing core: a scene-description compiler (lexer,
//! recursive-descent parser, per-kind validator) and a renderer that turns a
//! scene of spheres and lights into RGBA framebuffer bytes.  Window creation
//! and on-screen presentation are left to the surrounding program.

pub mod fixed;
pub mod color;
pub mod coord;
pub mod canvas;
pub mod lexer;
pub mod ast;
pub mod parser;
pub mod validate;
pub mod light;
pub mod shape;
pub mod scene;
pub mod writer;
