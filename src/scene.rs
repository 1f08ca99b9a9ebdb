use vstd::prelude::*;

verus! {

/// The preset scenes.
#[derive(Clone, Copy, Debug, PartialEq, Eq, Structural)]
pub enum Scene {
    RandomSpheres,
    TwoSpheres,
    TwoPerlinSpheres,
    Earth,
    SimpleLight,
    CornellBox,
    CornellSmoke,
    Final,
}

/// The integer side of a render: raster size, the aspect ratio it came from, samples
/// per pixel, bounce depth, and whether the background is the sky or black.
#[derive(Clone, Copy, Debug, PartialEq, Eq, Structural)]
pub struct RenderSettings {
    pub width: usize,
    pub height: usize,
    pub aspect_w: usize,
    pub aspect_h: usize,
    pub samples_per_pixel: usize,
    pub max_depth: usize,
    pub sky: bool,
}

/// Deepest bounce followed before a path is cut off.
pub const MAX_DEPTH: usize = 50;

/// The preset that a mode number selects; any number not listed selects the final scene.
pub open spec fn scene_of(mode: i32) -> Scene {
    if mode == 1 {
        Scene::RandomSpheres
    } else if mode == 2 {
        Scene::TwoSpheres
    } else if mode == 3 {
        Scene::TwoPerlinSpheres
    } else if mode == 4 {
        Scene::Earth
    } else if mode == 5 {
        Scene::SimpleLight
    } else if mode == 6 {
        Scene::CornellBox
    } else if mode == 7 {
        Scene::CornellSmoke
    } else {
        Scene::Final
    }
}

/// Width, aspect ratio `w : h`, samples per pixel and sky background of each preset.
pub open spec fn preset(s: Scene) -> (usize, usize, usize, usize, bool) {
    match s {
        Scene::RandomSpheres | Scene::TwoSpheres | Scene::TwoPerlinSpheres | Scene::Earth => (
            400,
            16,
            9,
            100,
            true,
        ),
        Scene::SimpleLight => (400, 16, 9, 400, false),
        Scene::CornellBox | Scene::CornellSmoke => (600, 1, 1, 200, false),
        Scene::Final => (800, 1, 1, 5000, false),
    }
}

impl Scene {
    pub fn from_mode(mode: i32) -> (r: Scene)
        ensures
            r == scene_of(mode),
    {
        match mode {
            1 => Scene::RandomSpheres,
            2 => Scene::TwoSpheres,
            3 => Scene::TwoPerlinSpheres,
            4 => Scene::Earth,
            5 => Scene::SimpleLight,
            6 => Scene::CornellBox,
            7 => Scene::CornellSmoke,
            _ => Scene::Final,
        }
    }

    /// The preset's settings; the height is the width divided by the aspect ratio,
    /// rounded down.
    pub fn settings(&self) -> (r: RenderSettings)
        ensures
            (r.width, r.aspect_w, r.aspect_h, r.samples_per_pixel, r.sky) == preset(*self),
            r.height == r.width * r.aspect_h / (r.aspect_w as int),
            r.max_depth == MAX_DEPTH,
    {
        let (width, aspect_w, aspect_h, samples_per_pixel, sky): (usize, usize, usize, usize, bool) =
            match self {
            Scene::RandomSpheres | Scene::TwoSpheres | Scene::TwoPerlinSpheres | Scene::Earth => (
                400,
                16,
                9,
                100,
                true,
            ),
            Scene::SimpleLight => (400, 16, 9, 400, false),
            Scene::CornellBox | Scene::CornellSmoke => (600, 1, 1, 200, false),
            Scene::Final => (800, 1, 1, 5000, false),
        };
        RenderSettings {
            width,
            height: width * aspect_h / aspect_w,
            aspect_w,
            aspect_h,
            samples_per_pixel,
            max_depth: MAX_DEPTH,
            sky,
        }
    }
}

} // verus!
