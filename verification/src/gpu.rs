//! The GPU entry points. This library is built without any GPU backend
//! (Vulkan, Direct3D 11, Metal, GLES / EGL are all feature-gated FFI), so
//! every entry point reports which backend it would need.

use vstd::prelude::*;
use crate::pixmap::Pixmap;

verus! {

/// Error of the Vulkan entry points in a build without the `vk` backend.
pub open spec fn no_vulkan() -> Seq<char> {
    "forma-gpu: built without the `vk` feature (Linux-only Vulkan FFI)"@
}

/// Error of the Direct3D entry points in a build without the `d3d` backend.
pub open spec fn no_d3d() -> Seq<char> {
    "forma-gpu: built without the `d3d` feature (Windows-only Direct3D FFI)"@
}

/// Error of the Metal entry points in a build without the `mtl` backend.
pub open spec fn no_metal() -> Seq<char> {
    "forma-gpu: built without the `mtl` feature (macOS-only Metal FFI)"@
}

/// Error of the GLES entry points in a build without the `gl` backend.
pub open spec fn no_gl() -> Seq<char> {
    "forma-gpu: built without the `gl` feature (Linux-only GLES backend)"@
}

/// Enumerate the Vulkan physical devices reachable through the system loader.
pub fn vulkan_devices() -> (r: Result<Vec<String>, String>)
    ensures
        match r {
            Err(e) => e@ == no_vulkan(),
            Ok(_) => false,
        },
{
    Err(String::from_str("forma-gpu: built without the `vk` feature (Linux-only Vulkan FFI)"))
}

/// Create a Vulkan logical device with a graphics queue on the first physical device.
pub fn vulkan_init_device() -> (r: Result<String, String>)
    ensures
        match r {
            Err(e) => e@ == no_vulkan(),
            Ok(_) => false,
        },
{
    Err(String::from_str("forma-gpu: built without the `vk` feature (Linux-only Vulkan FFI)"))
}

/// Allocate a `width`×`height` RGBA8 color-attachment Vulkan image.
pub fn vulkan_init_image(width: u32, height: u32) -> (r: Result<String, String>)
    ensures
        match r {
            Err(e) => e@ == no_vulkan(),
            Ok(_) => false,
        },
{
    Err(String::from_str("forma-gpu: built without the `vk` feature (Linux-only Vulkan FFI)"))
}

/// Build the Vulkan render-target objects for a `width`×`height` offscreen frame.
pub fn vulkan_init_framebuffer(width: u32, height: u32) -> (r: Result<String, String>)
    ensures
        match r {
            Err(e) => e@ == no_vulkan(),
            Ok(_) => false,
        },
{
    Err(String::from_str("forma-gpu: built without the `vk` feature (Linux-only Vulkan FFI)"))
}

/// Run a Vulkan command buffer clearing a `width`×`height` image.
pub fn vulkan_clear(width: u32, height: u32) -> (r: Result<String, String>)
    ensures
        match r {
            Err(e) => e@ == no_vulkan(),
            Ok(_) => false,
        },
{
    Err(String::from_str("forma-gpu: built without the `vk` feature (Linux-only Vulkan FFI)"))
}

/// Render a cleared `width`×`height` frame through Vulkan and read it back.
pub fn vulkan_render_clear(width: u32, height: u32) -> (r: Result<Vec<u8>, String>)
    ensures
        match r {
            Err(e) => e@ == no_vulkan(),
            Ok(_) => false,
        },
{
    Err(String::from_str("forma-gpu: built without the `vk` feature (Linux-only Vulkan FFI)"))
}

/// Draw a triangle through a Vulkan graphics pipeline and read the frame back.
pub fn vulkan_render_triangle(width: u32, height: u32) -> (r: Result<Vec<u8>, String>)
    ensures
        match r {
            Err(e) => e@ == no_vulkan(),
            Ok(_) => false,
        },
{
    Err(String::from_str("forma-gpu: built without the `vk` feature (Linux-only Vulkan FFI)"))
}

/// Create a Direct3D 11 device on WARP and report its feature level.
pub fn d3d11_device() -> (r: Result<String, String>)
    ensures
        match r {
            Err(e) => e@ == no_d3d(),
            Ok(_) => false,
        },
{
    Err(String::from_str("forma-gpu: built without the `d3d` feature (Windows-only Direct3D FFI)"))
}

/// Render a cleared frame through Direct3D 11 and read it back.
pub fn d3d11_render_clear(width: u32, height: u32) -> (r: Result<Vec<u8>, String>)
    ensures
        match r {
            Err(e) => e@ == no_d3d(),
            Ok(_) => false,
        },
{
    Err(String::from_str("forma-gpu: built without the `d3d` feature (Windows-only Direct3D FFI)"))
}

/// Draw a triangle through Direct3D 11 and read the frame back.
pub fn d3d11_render_triangle(width: u32, height: u32) -> (r: Result<Vec<u8>, String>)
    ensures
        match r {
            Err(e) => e@ == no_d3d(),
            Ok(_) => false,
        },
{
    Err(String::from_str("forma-gpu: built without the `d3d` feature (Windows-only Direct3D FFI)"))
}

/// Create the system default Metal device and report its name.
pub fn metal_device() -> (r: Result<String, String>)
    ensures
        match r {
            Err(e) => e@ == no_metal(),
            Ok(_) => false,
        },
{
    Err(String::from_str("forma-gpu: built without the `mtl` feature (macOS-only Metal FFI)"))
}

/// Render a cleared frame through Metal and read it back.
pub fn metal_render_clear(width: u32, height: u32) -> (r: Result<Vec<u8>, String>)
    ensures
        match r {
            Err(e) => e@ == no_metal(),
            Ok(_) => false,
        },
{
    Err(String::from_str("forma-gpu: built without the `mtl` feature (macOS-only Metal FFI)"))
}

/// Draw a triangle through a Metal render pipeline and read the frame back.
pub fn metal_render_triangle(width: u32, height: u32) -> (r: Result<Vec<u8>, String>)
    ensures
        match r {
            Err(e) => e@ == no_metal(),
            Ok(_) => false,
        },
{
    Err(String::from_str("forma-gpu: built without the `mtl` feature (macOS-only Metal FFI)"))
}

/// Round-trip `input` through the GPU (upload, draw, read back).
pub fn present_offscreen(input: &Pixmap) -> (r: Result<Pixmap, String>)
    ensures
        match r {
            Err(e) => e@ == no_gl(),
            Ok(_) => false,
        },
{
    Err(String::from_str("forma-gpu: built without the `gl` feature (Linux-only GLES backend)"))
}

/// The device's EGL extension string.
pub fn dmabuf_extensions() -> (r: Result<String, String>)
    ensures
        match r {
            Err(e) => e@ == no_gl(),
            Ok(_) => false,
        },
{
    Err(String::from_str("forma-gpu: built without the `gl` feature (Linux-only GLES backend)"))
}

/// Export a GPU-rendered pattern as a dma-buf, re-import it, and return the pixels.
pub fn dmabuf_export_import_self_test() -> (r: Result<Vec<u8>, String>)
    ensures
        match r {
            Err(e) => e@ == no_gl(),
            Ok(_) => false,
        },
{
    Err(String::from_str("forma-gpu: built without the `gl` feature (Linux-only GLES backend)"))
}

/// The dma-buf self test bound to the GPU named by the DRM device `drm_fd`.
pub fn dmabuf_self_test_on_device(drm_fd: i32) -> (r: Result<Vec<u8>, String>)
    ensures
        match r {
            Err(e) => e@ == no_gl(),
            Ok(_) => false,
        },
{
    Err(String::from_str("forma-gpu: built without the `gl` feature (Linux-only GLES backend)"))
}

} // verus!
