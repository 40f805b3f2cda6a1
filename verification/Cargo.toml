[package]
name = "jni_bindgen"
version = "0.1.0"
edition = "2021"
publish = false

[dependencies]
bugsalot = "*"
clap = "2"
jni-glue = "*"
jni-sys = "0.3"
jreflection = "*"
