//! A software rasterizer core: a colour and depth canvas, integer line and
//! triangle drawing, depth-tested fragment writes, and the mesh data that
//! feeds them.

pub mod canvas;
pub mod colors;
pub mod config;
pub mod depth;
pub mod lines;
pub mod maths;
pub mod model;
pub mod obj;
pub mod scenes;
pub mod sweep;
pub mod triangles;

pub use canvas::{Canvas, CanvasModel};
pub use colors::{
    black, blue, clear, color_from_bytes, cyan, green, magenta, random_color, red, white, yellow, Rgb,
    Rgba,
};
pub use config::{validate_image_size, SizeError};
pub use depth::Depth;
pub use lines::Point;
pub use maths::{yolo_max, yolo_min};
pub use model::{Face, FacePoint, ModelInput, ModelShading, Texture};
pub use obj::{parse_obj, ObjError, ObjErrorKind, ObjMesh};
pub use scenes::RenderScene;
pub use triangles::{barycentric_coords_2d, Barycentric};
