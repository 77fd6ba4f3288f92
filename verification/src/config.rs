//! Settings of the window the dispatcher runs in.

use vstd::prelude::*;

verus! {

/// The OpenGL version the window is asked for.
#[derive(Clone, Copy, Debug, PartialEq, Eq, Structural)]
#[allow(non_camel_case_types)]
pub enum OpenGL {
    V2_0,
    V2_1,
    V3_0,
    V3_1,
    V3_2,
    V3_3,
    V4_0,
    V4_1,
    V4_2,
    V4_3,
    V4_4,
    V4_5,
}

/// The size, the frame rate and the OpenGL version of the window.
#[derive(Clone, Copy, Debug, PartialEq, Eq, Structural)]
pub struct Config {
    window_width: u32,
    window_height: u32,
    window_fps: u64,
    window_opengl: OpenGL,
}

impl Config {
    /// A window of 1024 by 768 pixels at 60 frames per second, on OpenGL
    /// 3.2.
    pub fn default() -> (config: Self)
        ensures
            config.width() == 1024,
            config.height() == 768,
            config.fps() == 60,
            config.opengl() == OpenGL::V3_2,
    {
        Self { window_width: 1024, window_height: 768, window_fps: 60, window_opengl: OpenGL::V3_2 }
    }

    /// A window of `window_width` by `window_height` pixels at
    /// `window_fps` frames per second, on OpenGL `window_opengl`.
    pub fn new(window_width: u32, window_height: u32, window_fps: u64, window_opengl: OpenGL) -> (config:
        Self)
        ensures
            config.width() == window_width,
            config.height() == window_height,
            config.fps() == window_fps,
            config.opengl() == window_opengl,
    {
        Self { window_width, window_height, window_fps, window_opengl }
    }

    /// The configured width.
    pub closed spec fn width(&self) -> u32 {
        self.window_width
    }

    /// The configured height.
    pub closed spec fn height(&self) -> u32 {
        self.window_height
    }

    /// The configured frame rate.
    pub closed spec fn fps(&self) -> u64 {
        self.window_fps
    }

    /// The configured OpenGL version.
    pub closed spec fn opengl(&self) -> OpenGL {
        self.window_opengl
    }

    /// The width of the window, in pixels.
    pub fn window_width(&self) -> (width: u32)
        ensures
            width == self.width(),
    {
        self.window_width
    }

    /// The height of the window, in pixels.
    pub fn window_height(&self) -> (height: u32)
        ensures
            height == self.height(),
    {
        self.window_height
    }

    /// The frame rate, which is the update rate too.
    pub fn window_fps(&self) -> (fps: u64)
        ensures
            fps == self.fps(),
    {
        self.window_fps
    }

    /// The OpenGL version the window is asked for.
    pub fn window_opengl(&self) -> (opengl: OpenGL)
        ensures
            opengl == self.opengl(),
    {
        self.window_opengl
    }
}

} // verus!
