[package]
name = "chip8_core"
version = "0.1.0"
edition = "2021"
publish = false

[dependencies]
sdl2 = "*"
png = "*"
wasm-bindgen = "*"
js-sys = "*"
web-sys = { version = "*", features = ["HtmlCanvasElement", "WebGlProgram", "WebGlRenderingContext", "WebGlShader", "WebGlBuffer", "WebGlTexture", "WebGlUniformLocation"] }
