use vstd::prelude::*;

verus! {

/// The scenes that can be rendered, in the order of a demo run.
#[derive(Clone, Copy, Debug, PartialEq, Eq, Structural)]
pub enum RenderScene {
    FivePixels,
    Lines,
    ModelWireframe,
    TriangleLineSweepVerbose,
    TriangleLineSweepCompact,
    TriangleBarycentric,
    ModelColoredTriangles,
    ModelFlatShaded,
    DepthBuffer,
    ModelDepthTested,
    ModelTextured,
    ModelPerspective,
    ModelGouraud,
    MovableCamera,
    ReimplementAsShader,
    GouraudIntensitiesBucketed,
    DepthTestedTriangles,
    NormalGlobalAsDiffuse,
    NormalShader,
    SpecularAsDiffuse,
    NormalTangentAsDiffuse,
    PhongShader,
    ShadowBuffer,
    Shadowed,
    ScreenSpaceAmbientOcclusionCalculated,
    ScreenSpaceAmbientOcclusion,
}

/// How many scenes there are.
pub const SCENE_COUNT: usize = 26;

impl RenderScene {
    /// The position of the scene in the demo order, from zero.
    pub open spec fn index(self) -> int {
        match self {
            RenderScene::FivePixels => 0,
            RenderScene::Lines => 1,
            RenderScene::ModelWireframe => 2,
            RenderScene::TriangleLineSweepVerbose => 3,
            RenderScene::TriangleLineSweepCompact => 4,
            RenderScene::TriangleBarycentric => 5,
            RenderScene::ModelColoredTriangles => 6,
            RenderScene::ModelFlatShaded => 7,
            RenderScene::DepthBuffer => 8,
            RenderScene::ModelDepthTested => 9,
            RenderScene::ModelTextured => 10,
            RenderScene::ModelPerspective => 11,
            RenderScene::ModelGouraud => 12,
            RenderScene::MovableCamera => 13,
            RenderScene::ReimplementAsShader => 14,
            RenderScene::GouraudIntensitiesBucketed => 15,
            RenderScene::DepthTestedTriangles => 16,
            RenderScene::NormalGlobalAsDiffuse => 17,
            RenderScene::NormalShader => 18,
            RenderScene::SpecularAsDiffuse => 19,
            RenderScene::NormalTangentAsDiffuse => 20,
            RenderScene::PhongShader => 21,
            RenderScene::ShadowBuffer => 22,
            RenderScene::Shadowed => 23,
            RenderScene::ScreenSpaceAmbientOcclusionCalculated => 24,
            RenderScene::ScreenSpaceAmbientOcclusion => 25,
        }
    }

    /// The first scene of a demo run.
    pub fn first() -> (s: RenderScene)
        ensures
            s.index() == 0,
    {
        RenderScene::FivePixels
    }

    /// The scene that follows this one in a demo run; after the last comes
    /// the first again.
    pub fn next_scene(self) -> (s: RenderScene)
        ensures
            s.index() == (self.index() + 1) % (SCENE_COUNT as int),
    {
        match self {
            RenderScene::FivePixels => RenderScene::Lines,
            RenderScene::Lines => RenderScene::ModelWireframe,
            RenderScene::ModelWireframe => RenderScene::TriangleLineSweepVerbose,
            RenderScene::TriangleLineSweepVerbose => RenderScene::TriangleLineSweepCompact,
            RenderScene::TriangleLineSweepCompact => RenderScene::TriangleBarycentric,
            RenderScene::TriangleBarycentric => RenderScene::ModelColoredTriangles,
            RenderScene::ModelColoredTriangles => RenderScene::ModelFlatShaded,
            RenderScene::ModelFlatShaded => RenderScene::DepthBuffer,
            RenderScene::DepthBuffer => RenderScene::ModelDepthTested,
            RenderScene::ModelDepthTested => RenderScene::ModelTextured,
            RenderScene::ModelTextured => RenderScene::ModelPerspective,
            RenderScene::ModelPerspective => RenderScene::ModelGouraud,
            RenderScene::ModelGouraud => RenderScene::MovableCamera,
            RenderScene::MovableCamera => RenderScene::ReimplementAsShader,
            RenderScene::ReimplementAsShader => RenderScene::GouraudIntensitiesBucketed,
            RenderScene::GouraudIntensitiesBucketed => RenderScene::DepthTestedTriangles,
            RenderScene::DepthTestedTriangles => RenderScene::NormalGlobalAsDiffuse,
            RenderScene::NormalGlobalAsDiffuse => RenderScene::NormalShader,
            RenderScene::NormalShader => RenderScene::SpecularAsDiffuse,
            RenderScene::SpecularAsDiffuse => RenderScene::NormalTangentAsDiffuse,
            RenderScene::NormalTangentAsDiffuse => RenderScene::PhongShader,
            RenderScene::PhongShader => RenderScene::ShadowBuffer,
            RenderScene::ShadowBuffer => RenderScene::Shadowed,
            RenderScene::Shadowed => RenderScene::ScreenSpaceAmbientOcclusionCalculated,
            RenderScene::ScreenSpaceAmbientOcclusionCalculated => RenderScene::ScreenSpaceAmbientOcclusion,
            RenderScene::ScreenSpaceAmbientOcclusion => RenderScene::FivePixels,
        }
    }
}

impl Default for RenderScene {
    fn default() -> (s: RenderScene)
        ensures
            s.index() == 0,
    {
        RenderScene::FivePixels
    }
}

/// Every scene has its own position, below the number of scenes.
pub proof fn lemma_scene_index(s: RenderScene, t: RenderScene)
    ensures
        0 <= s.index() < SCENE_COUNT,
        s.index() == t.index() ==> s == t,
{
}

} // verus!
