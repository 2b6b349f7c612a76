use vstd::prelude::*;

use crate::canvas::lemma_pixel_index_bounds;
use crate::colors::Rgb;

use std::path::{Path, PathBuf};

verus! {

/// One corner of a face: indices, from zero, of its vertex, its texture
/// coordinate and its normal.
#[derive(Clone, Copy, Debug, PartialEq, Eq, Structural)]
pub struct FacePoint {
    pub vertices_index: usize,
    pub uv_index: usize,
    pub normals_index: usize,
}

impl FacePoint {
    pub fn new(vertices_index: usize, uv_index: usize, normals_index: usize) -> (p: FacePoint)
        ensures
            p == (FacePoint { vertices_index, uv_index, normals_index }),
    {
        FacePoint { vertices_index, uv_index, normals_index }
    }
}

/// A face of a mesh: its corners in order.
#[derive(Clone, Debug)]
pub struct Face {
    pub points: Vec<FacePoint>,
}

impl View for Face {
    type V = Seq<FacePoint>;

    open spec fn view(&self) -> Seq<FacePoint> {
        self.points@
    }
}

impl Face {
    pub fn new(points: Vec<FacePoint>) -> (f: Face)
        ensures
            f@ == points@,
    {
        Face { points }
    }
}

/// A texture: `height` rows of `width` texels, top row first.
#[derive(Clone, Debug)]
pub struct Texture {
    pub width: usize,
    pub height: usize,
    pub data: Vec<Rgb>,
}

impl Texture {
    pub fn new(width: usize, height: usize, data: Vec<Rgb>) -> (t: Texture)
        ensures
            t.width == width,
            t.height == height,
            t.data@ == data@,
    {
        Texture { width, height, data }
    }

    /// One texel per position.
    pub open spec fn wf(&self) -> bool {
        self.data@.len() == self.width * self.height
    }

    /// The texel at column `x` and height `y` counted from the bottom edge,
    /// so that `y` = `height` is the top row.
    pub fn pixel_at(&self, x: usize, y: usize) -> (c: Rgb)
        requires
            self.wf(),
            x < self.width,
            1 <= y <= self.height,
        ensures
            c == self.data@[(self.height - y) * self.width + x],
    {
        let n = self.data.len();
        proof {
            lemma_pixel_index_bounds(
                self.width as nat,
                self.height as nat,
                x as int,
                self.height - y,
            );
        }
        let row = (self.height - y) * self.width;
        self.data[row + x]
    }
}

/// std's owned file path, carried through unread.
#[verifier::external_type_specification]
#[verifier::external_body]
pub struct ExPathBuf(PathBuf);

/// std's borrowed file path, carried through unread.
#[verifier::external_type_specification]
#[verifier::external_body]
pub struct ExPath(Path);

/// Relies on PathBuf::as_path: it borrows the path the buffer holds.
pub assume_specification[ PathBuf::as_path ](p: &PathBuf) -> &Path;

/// The files a model is read from: the mesh and its textures.
#[derive(Debug)]
pub struct ModelInput {
    pub model: PathBuf,
    pub diffuse_texture: PathBuf,
    pub normal_texture_global: PathBuf,
    pub normal_texture_darboux: PathBuf,
    pub specular_texture: PathBuf,
}

impl ModelInput {
    /// The mesh file.
    pub fn path(&self) -> &Path {
        self.model.as_path()
    }
}

/// Which fixed-function pipeline renders a model.
#[derive(Clone, Copy, Debug, PartialEq, Eq, Structural)]
pub enum ModelShading {
    FlatOnly,
    DepthTested,
    Textured,
    Gouraud,
}

} // verus!
