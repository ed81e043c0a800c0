//! The order in which a frame is drawn.
//!
//! The solids are drawn once as the camera sees them. Then each mirror
//! has its turn: the stencil buffer is cleared, the surface of the mirror
//! is stamped into it where no solid hides it, and the solids are drawn
//! once more as they appear in the mirror, only where the stamp is.

use crate::mirror::Mirror;
use crate::shapes::{Shading, SolidEntity};
use vstd::prelude::*;

verus! {

/// The shader program that draws a solid.
#[derive(Clone, Copy, Debug, PartialEq, Eq, Structural)]
pub enum Program {
    /// One normal per vertex.
    Basic,
    /// One normal per face.
    Flat,
}

/// The way the corners of a triangle run on the screen.
#[derive(Clone, Copy, Debug, PartialEq, Eq, Structural)]
pub enum Winding {
    Clockwise,
    CounterClockwise,
}

/// When a pixel passes the depth test.
#[derive(Clone, Copy, Debug, PartialEq, Eq, Structural)]
pub enum DepthTest {
    /// Always.
    Overwrite,
    /// If it is no farther from the viewer than what was drawn there before.
    IfLessOrEqual,
}

/// When a pixel of a front face passes the stencil test.
#[derive(Clone, Copy, Debug, PartialEq, Eq, Structural)]
pub enum StencilTest {
    AlwaysPass,
    /// Where the bits of `mask` in the buffer equal those of the reference value.
    IfEqual { mask: u32 },
}

/// What becomes of the stencil value of a pixel that passes both tests.
#[derive(Clone, Copy, Debug, PartialEq, Eq, Structural)]
pub enum StencilOperation {
    Keep,
    /// The reference value takes its place.
    Replace,
}

/// What one step of a frame draws.
#[derive(Clone, Copy, Debug, PartialEq, Eq, Structural)]
pub enum Pass {
    /// The solids as the camera sees them.
    Direct,
    /// The surface of a mirror.
    Stencil,
    /// The solids as they appear in a mirror.
    Reflected,
}

/// How the triangles of a pass are tested and what they write.
#[derive(Clone, Copy, Debug, PartialEq, Eq, Structural)]
pub struct RenderState {
    pub depth_test: DepthTest,
    /// Whether a pixel that is drawn leaves its depth behind.
    pub depth_write: bool,
    /// The winding of the faces that are drawn; the others are culled.
    pub front: Winding,
    pub stencil_test: StencilTest,
    pub stencil_operation: StencilOperation,
    pub stencil_reference: i32,
}

/// One step of a frame.
#[derive(Clone, Copy, Debug, PartialEq, Eq, Structural)]
pub enum Step {
    /// The colour and the depth of every pixel are reset.
    Clear,
    /// The stencil value of every pixel is set to zero.
    ClearStencil,
    /// The solid with the number `entity` is drawn: as the camera sees
    /// it, or as it appears in the mirror with the number `through`.
    Solid { entity: usize, mesh: usize, program: Program, through: Option<usize> },
    /// The surface of the mirror with the number `mirror` is drawn.
    Surface { mirror: usize, mesh: usize, program: Program },
}

/// The value that marks the pixels of a mirror in the stencil buffer.
pub const MIRROR_STAMP: i32 = 1;

/// The program for a solid with the shading `shading`.
pub open spec fn program_for(shading: Shading) -> Program {
    match shading {
        Shading::Flat => Program::Flat,
        Shading::Smooth => Program::Basic,
    }
}

/// The winding opposite to `winding`.
pub open spec fn reversed(winding: Winding) -> Winding {
    match winding {
        Winding::Clockwise => Winding::CounterClockwise,
        Winding::CounterClockwise => Winding::Clockwise,
    }
}

/// The pass that `step` belongs to, if it draws anything.
pub open spec fn pass_of(step: Step) -> Option<Pass> {
    match step {
        Step::Clear => None,
        Step::ClearStencil => None,
        Step::Solid { through: None, .. } => Some(Pass::Direct),
        Step::Solid { through: Some(_), .. } => Some(Pass::Reflected),
        Step::Surface { .. } => Some(Pass::Stencil),
    }
}

/// The render state of each pass.
///
/// Nothing is drawn over what lies nearer. The meshes show their front
/// counter-clockwise. A mirror swaps left and right, so what it shows
/// has its front clockwise. The surface of a mirror is stamped without
/// leaving its depth behind, and what appears in the mirror is drawn
/// only where the stamp is.
pub open spec fn state_of(pass: Pass) -> RenderState {
    match pass {
        Pass::Direct => RenderState {
            depth_test: DepthTest::IfLessOrEqual,
            depth_write: true,
            front: Winding::CounterClockwise,
            stencil_test: StencilTest::AlwaysPass,
            stencil_operation: StencilOperation::Keep,
            stencil_reference: 0,
        },
        Pass::Stencil => RenderState {
            depth_test: DepthTest::IfLessOrEqual,
            depth_write: false,
            front: Winding::CounterClockwise,
            stencil_test: StencilTest::AlwaysPass,
            stencil_operation: StencilOperation::Replace,
            stencil_reference: MIRROR_STAMP,
        },
        Pass::Reflected => RenderState {
            depth_test: DepthTest::IfLessOrEqual,
            depth_write: true,
            front: Winding::Clockwise,
            stencil_test: StencilTest::IfEqual { mask: 0xFF },
            stencil_operation: StencilOperation::Keep,
            stencil_reference: MIRROR_STAMP,
        },
    }
}

/// The steps that draw every solid once, in the order of `entities`.
pub open spec fn solids(entities: Seq<SolidEntity>, through: Option<usize>) -> Seq<Step> {
    Seq::new(
        entities.len(),
        |i: int|
            Step::Solid {
                entity: i as usize,
                mesh: entities[i].mesh,
                program: program_for(entities[i].shading),
                through,
            },
    )
}

/// The steps for the mirror with the number `j`: the stencil buffer is
/// cleared, the surface is stamped, and the solids are drawn as they
/// appear in the mirror.
pub open spec fn mirror_turn(entities: Seq<SolidEntity>, mirrors: Seq<Mirror>, j: int) -> Seq<
    Step,
> {
    seq![
        Step::ClearStencil,
        Step::Surface { mirror: j as usize, mesh: mirrors[j].mesh, program: Program::Basic },
    ] + solids(entities, Some(j as usize))
}

/// The turns of the first `count` mirrors, one after the other.
pub open spec fn mirror_turns(entities: Seq<SolidEntity>, mirrors: Seq<Mirror>, count: nat) -> Seq<
    Step,
>
    decreases count,
{
    if count == 0 {
        Seq::empty()
    } else {
        mirror_turns(entities, mirrors, (count - 1) as nat) + mirror_turn(
            entities,
            mirrors,
            count - 1,
        )
    }
}

/// The steps of a frame.
pub open spec fn frame(entities: Seq<SolidEntity>, mirrors: Seq<Mirror>) -> Seq<Step> {
    seq![Step::Clear] + solids(entities, None) + mirror_turns(entities, mirrors, mirrors.len())
}

/// The program that draws a solid with the shading `shading`.
pub fn program(shading: Shading) -> (program: Program)
    ensures
        program == program_for(shading),
{
    match shading {
        Shading::Flat => Program::Flat,
        Shading::Smooth => Program::Basic,
    }
}

/// The render state of `pass`.
pub fn render_state(pass: Pass) -> (state: RenderState)
    ensures
        state == state_of(pass),
{
    match pass {
        Pass::Direct => RenderState {
            depth_test: DepthTest::IfLessOrEqual,
            depth_write: true,
            front: Winding::CounterClockwise,
            stencil_test: StencilTest::AlwaysPass,
            stencil_operation: StencilOperation::Keep,
            stencil_reference: 0,
        },
        Pass::Stencil => RenderState {
            depth_test: DepthTest::IfLessOrEqual,
            depth_write: false,
            front: Winding::CounterClockwise,
            stencil_test: StencilTest::AlwaysPass,
            stencil_operation: StencilOperation::Replace,
            stencil_reference: MIRROR_STAMP,
        },
        Pass::Reflected => RenderState {
            depth_test: DepthTest::IfLessOrEqual,
            depth_write: true,
            front: Winding::Clockwise,
            stencil_test: StencilTest::IfEqual { mask: 0xFF },
            stencil_operation: StencilOperation::Keep,
            stencil_reference: MIRROR_STAMP,
        },
    }
}

/// The pass that `step` belongs to, if it draws anything.
pub fn pass(step: &Step) -> (pass: Option<Pass>)
    ensures
        pass == pass_of(*step),
{
    match step {
        Step::Clear => None,
        Step::ClearStencil => None,
        Step::Solid { through: None, .. } => Some(Pass::Direct),
        Step::Solid { through: Some(_), .. } => Some(Pass::Reflected),
        Step::Surface { .. } => Some(Pass::Stencil),
    }
}

/// Adds to `steps` the steps that draw every solid once.
fn draw_solids(steps: &mut Vec<Step>, entities: &Vec<SolidEntity>, through: Option<usize>)
    ensures
        final(steps)@ == old(steps)@ + solids(entities@, through),
{
    let ghost before = steps@;
    let mut i: usize = 0;
    while i < entities.len()
        invariant
            i <= entities@.len(),
            steps@ == before + solids(entities@, through).subrange(0, i as int),
        decreases entities@.len() - i,
    {
        let entity = entities[i];
        steps.push(
            Step::Solid { entity: i, mesh: entity.mesh, program: program(entity.shading), through },
        );
        assert(steps@ =~= before + solids(entities@, through).subrange(0, i + 1));
        i = i + 1;
    }
    assert(steps@ =~= before + solids(entities@, through));
}

/// The steps of a frame, in the order in which they are to be carried out.
pub fn frame_steps(entities: &Vec<SolidEntity>, mirrors: &Vec<Mirror>) -> (steps: Vec<Step>)
    ensures
        steps@ == frame(entities@, mirrors@),
{
    let mut steps: Vec<Step> = Vec::new();
    steps.push(Step::Clear);
    draw_solids(&mut steps, entities, None);
    let ghost direct = steps@;
    assert(direct =~= seq![Step::Clear] + solids(entities@, None));
    let mut j: usize = 0;
    while j < mirrors.len()
        invariant
            j <= mirrors@.len(),
            steps@ == direct + mirror_turns(entities@, mirrors@, j as nat),
        decreases mirrors@.len() - j,
    {
        let ghost before = steps@;
        steps.push(Step::ClearStencil);
        steps.push(Step::Surface { mirror: j, mesh: mirrors[j].mesh, program: Program::Basic });
        draw_solids(&mut steps, entities, Some(j));
        assert(steps@ =~= before + mirror_turn(entities@, mirrors@, j as int));
        assert(steps@ =~= direct + mirror_turns(entities@, mirrors@, (j + 1) as nat));
        j = j + 1;
    }
    steps
}

/// The number of steps of a frame with `solids` solids and `mirrors` mirrors.
pub open spec fn frame_len(solids: nat, mirrors: nat) -> nat {
    1 + solids + mirrors * (solids + 2)
}

/// The place in the frame at which the turn of the mirror with the
/// number `j` begins.
pub open spec fn turn_start(solids: nat, j: int) -> int {
    1 + solids + j * (solids + 2)
}

proof fn lemma_next_turn(solids: nat, j: int)
    ensures
        (j + 1) * (solids + 2) == j * (solids + 2) + (solids + 2),
        j >= 0 ==> j * (solids + 2) >= 0,
{
    assert((j + 1) * (solids + 2) == j * (solids + 2) + (solids + 2)) by (nonlinear_arith);
    assert(j >= 0 ==> j * (solids + 2) >= 0) by (nonlinear_arith);
}

proof fn lemma_mirror_turns(entities: Seq<SolidEntity>, mirrors: Seq<Mirror>, count: nat)
    ensures
        mirror_turns(entities, mirrors, count).len() == count * (entities.len() + 2),
        forall|j: int, r: int|
            0 <= j < count && 0 <= r < entities.len() + 2 ==> mirror_turns(
                entities,
                mirrors,
                count,
            )[j * (entities.len() + 2) + r] == #[trigger] mirror_turn(entities, mirrors, j)[r],
    decreases count,
{
    let n = entities.len();
    if count == 0 {
        assert(0 * (n + 2) == 0);
    } else {
        let earlier = mirror_turns(entities, mirrors, (count - 1) as nat);
        let last = mirror_turn(entities, mirrors, count - 1);
        lemma_mirror_turns(entities, mirrors, (count - 1) as nat);
        lemma_next_turn(n, count - 1);
        assert forall|j: int, r: int| 0 <= j < count && 0 <= r < n + 2 implies mirror_turns(
            entities,
            mirrors,
            count,
        )[j * (n + 2) + r] == #[trigger] mirror_turn(entities, mirrors, j)[r] by {
            lemma_next_turn(n, j);
            if j < count - 1 {
                assert((j + 1) * (n + 2) <= (count - 1) * (n + 2)) by (nonlinear_arith)
                    requires
                        j + 1 <= count - 1,
                        n >= 0,
                ;
                assert(earlier[j * (n + 2) + r] == mirror_turn(entities, mirrors, j)[r]);
            } else {
                assert(last[r] == mirror_turn(entities, mirrors, j)[r]);
            }
        }
    }
}

/// A frame has one step that clears, one for each solid, and for each
/// mirror two and one for each solid.
pub proof fn lemma_frame_len(entities: Seq<SolidEntity>, mirrors: Seq<Mirror>)
    ensures
        frame(entities, mirrors).len() == frame_len(entities.len(), mirrors.len()),
{
    lemma_mirror_turns(entities, mirrors, mirrors.len());
}

/// A frame begins by clearing, and then draws each solid once as the
/// camera sees it, in the order of the list. No other step of the frame
/// belongs to the direct pass, and so every step of a mirror's turn comes
/// after all of them.
pub proof fn lemma_direct_pass_first(entities: Seq<SolidEntity>, mirrors: Seq<Mirror>, k: int)
    requires
        0 <= k < frame(entities, mirrors).len(),
    ensures
        (frame(entities, mirrors)[k] == Step::Clear) <==> k == 0,
        1 <= k <= entities.len() ==> frame(entities, mirrors)[k] == solids(entities, None)[k - 1],
        (pass_of(frame(entities, mirrors)[k]) == Some(Pass::Direct)) <==> 1 <= k <= entities.len(),
{
    let n = entities.len();
    let step = frame(entities, mirrors)[k];
    lemma_mirror_turns(entities, mirrors, mirrors.len());
    if k > n {
        let within = k - 1 - n;
        let width = (n + 2) as int;
        let j = within / width;
        let r = within % width;
        assert(within == j * (n + 2) + r && 0 <= r < n + 2 && 0 <= j < mirrors.len()) by {
            lemma_split(within, width, mirrors.len() as int);
        }
        assert(step == mirror_turns(entities, mirrors, mirrors.len())[within]);
        assert(step == mirror_turn(entities, mirrors, j)[r]);
    }
}

proof fn lemma_split(x: int, d: int, count: int)
    requires
        d > 0,
        0 <= x < count * d,
    ensures
        x == (x / d) * d + x % d,
        0 <= x % d < d,
        0 <= x / d < count,
{
    assert(x == (x / d) * d + x % d && 0 <= x % d < d) by (nonlinear_arith)
        requires
            d > 0,
    ;
    assert(0 <= x / d < count) by (nonlinear_arith)
        requires
            d > 0,
            0 <= x < count * d,
            x == (x / d) * d + x % d,
            0 <= x % d < d,
    ;
}

/// The turn of the mirror with the number `j` stands in the frame as a
/// whole, after the direct pass and the turns of the mirrors before it:
/// first the stencil buffer is cleared, then the surface is stamped,
/// then each solid is drawn as it appears in this mirror.
pub proof fn lemma_turn_in_frame(
    entities: Seq<SolidEntity>,
    mirrors: Seq<Mirror>,
    j: int,
    r: int,
)
    requires
        0 <= j < mirrors.len(),
        0 <= r < entities.len() + 2,
    ensures
        0 <= turn_start(entities.len(), j) + r < frame(entities, mirrors).len(),
        frame(entities, mirrors)[turn_start(entities.len(), j) + r] == mirror_turn(
            entities,
            mirrors,
            j,
        )[r],
        mirror_turn(entities, mirrors, j)[0] == Step::ClearStencil,
        pass_of(mirror_turn(entities, mirrors, j)[1]) == Some(Pass::Stencil),
        r >= 2 ==> mirror_turn(entities, mirrors, j)[r] == solids(entities, Some(j as usize))[r
            - 2],
{
    let n = entities.len();
    lemma_mirror_turns(entities, mirrors, mirrors.len());
    lemma_next_turn(n, j);
    assert((j + 1) * (n + 2) <= mirrors.len() * (n + 2)) by (nonlinear_arith)
        requires
            j + 1 <= mirrors.len(),
            n >= 0,
    ;
    assert(frame(entities, mirrors)[turn_start(n, j) + r] == mirror_turns(
        entities,
        mirrors,
        mirrors.len(),
    )[j * (n + 2) + r]);
}

/// What appears in a mirror is drawn with the winding reversed, only
/// where the surface of the mirror has left its stamp, and the stamp is
/// not the value to which the stencil buffer is cleared. The surface
/// itself leaves no depth behind, so that what appears in the mirror is
/// not hidden by it.
pub proof fn lemma_passes_agree()
    ensures
        state_of(Pass::Stencil).front == state_of(Pass::Direct).front,
        state_of(Pass::Reflected).front == reversed(state_of(Pass::Direct).front),
        state_of(Pass::Stencil).stencil_test == StencilTest::AlwaysPass,
        state_of(Pass::Stencil).stencil_operation == StencilOperation::Replace,
        state_of(Pass::Reflected).stencil_test is IfEqual,
        state_of(Pass::Reflected).stencil_operation == StencilOperation::Keep,
        state_of(Pass::Reflected).stencil_reference == state_of(Pass::Stencil).stencil_reference,
        state_of(Pass::Stencil).stencil_reference != 0,
        !state_of(Pass::Stencil).depth_write,
        state_of(Pass::Direct).depth_write,
        state_of(Pass::Reflected).depth_write,
        forall|pass: Pass| (#[trigger] state_of(pass)).depth_test == DepthTest::IfLessOrEqual,
{
}

} // verus!
