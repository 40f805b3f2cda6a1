//! Text transformations behind the JNI binding generator: Cargo.toml template
//! expansion, the marker check of generated files, and the UTF-16 form of Java strings.

pub mod text;
pub mod utf16;
pub mod cargo_toml;
pub mod bindgen;
pub mod android_sys_gen;
pub mod cli;
pub mod generated_file;
