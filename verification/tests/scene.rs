use graphex::mirror::Mirror;
use graphex::scene::{
    frame_steps, pass, program, render_state, DepthTest, Pass, Program, RenderState,
    StencilOperation, StencilTest, Step, Winding, MIRROR_STAMP,
};
use graphex::shapes::{Shading, SolidEntity};

#[test]
fn flat_solids_use_the_flat_program() {
    assert_eq!(program(Shading::Flat), Program::Flat);
    assert_eq!(program(Shading::Smooth), Program::Basic);
}

#[test]
fn empty_scene_only_clears() {
    let steps = frame_steps(&vec![], &vec![]);
    assert_eq!(steps, vec![Step::Clear]);
}

#[test]
fn scene_without_mirrors_draws_each_solid_once() {
    let entities = vec![
        SolidEntity { mesh: 0, shading: Shading::Smooth },
        SolidEntity { mesh: 1, shading: Shading::Flat },
    ];
    let steps = frame_steps(&entities, &vec![]);
    assert_eq!(
        steps,
        vec![
            Step::Clear,
            Step::Solid { entity: 0, mesh: 0, program: Program::Basic, through: None },
            Step::Solid { entity: 1, mesh: 1, program: Program::Flat, through: None },
        ]
    );
}

#[test]
fn two_mirrors_take_their_turns_after_the_direct_pass() {
    let entities = vec![
        SolidEntity { mesh: 0, shading: Shading::Smooth },
        SolidEntity { mesh: 1, shading: Shading::Flat },
    ];
    let mirrors = vec![Mirror { mesh: 2 }, Mirror { mesh: 2 }];
    let steps = frame_steps(&entities, &mirrors);
    assert_eq!(
        steps,
        vec![
            Step::Clear,
            Step::Solid { entity: 0, mesh: 0, program: Program::Basic, through: None },
            Step::Solid { entity: 1, mesh: 1, program: Program::Flat, through: None },
            Step::ClearStencil,
            Step::Surface { mirror: 0, mesh: 2, program: Program::Basic },
            Step::Solid { entity: 0, mesh: 0, program: Program::Basic, through: Some(0) },
            Step::Solid { entity: 1, mesh: 1, program: Program::Flat, through: Some(0) },
            Step::ClearStencil,
            Step::Surface { mirror: 1, mesh: 2, program: Program::Basic },
            Step::Solid { entity: 0, mesh: 0, program: Program::Basic, through: Some(1) },
            Step::Solid { entity: 1, mesh: 1, program: Program::Flat, through: Some(1) },
        ]
    );
}

#[test]
fn mirrors_without_solids_are_still_stamped() {
    let mirrors = vec![Mirror { mesh: 5 }];
    let steps = frame_steps(&vec![], &mirrors);
    assert_eq!(
        steps,
        vec![
            Step::Clear,
            Step::ClearStencil,
            Step::Surface { mirror: 0, mesh: 5, program: Program::Basic },
        ]
    );
}

#[test]
fn frame_length_follows_the_counts() {
    let entities = vec![SolidEntity { mesh: 0, shading: Shading::Smooth }; 8];
    let mirrors = vec![Mirror { mesh: 1 }; 2];
    let steps = frame_steps(&entities, &mirrors);
    assert_eq!(steps.len(), 1 + 8 + 2 * (8 + 2));
    let direct = steps.iter().filter(|s| pass(s) == Some(Pass::Direct)).count();
    let stencil = steps.iter().filter(|s| pass(s) == Some(Pass::Stencil)).count();
    let reflected = steps.iter().filter(|s| pass(s) == Some(Pass::Reflected)).count();
    assert_eq!((direct, stencil, reflected), (8, 2, 16));
    let first_turn = steps.iter().position(|s| *s == Step::ClearStencil).unwrap();
    assert_eq!(first_turn, 9);
    assert!(steps[..first_turn].iter().all(|s| pass(s) != Some(Pass::Reflected)));
    assert!(steps[first_turn..].iter().all(|s| pass(s) != Some(Pass::Direct)));
}

#[test]
fn every_step_has_its_pass() {
    assert_eq!(pass(&Step::Clear), None);
    assert_eq!(pass(&Step::ClearStencil), None);
    assert_eq!(
        pass(&Step::Solid { entity: 0, mesh: 0, program: Program::Flat, through: None }),
        Some(Pass::Direct)
    );
    assert_eq!(
        pass(&Step::Solid { entity: 0, mesh: 0, program: Program::Flat, through: Some(3) }),
        Some(Pass::Reflected)
    );
    assert_eq!(
        pass(&Step::Surface { mirror: 0, mesh: 0, program: Program::Basic }),
        Some(Pass::Stencil)
    );
}

#[test]
fn render_states_of_the_three_passes() {
    assert_eq!(
        render_state(Pass::Direct),
        RenderState {
            depth_test: DepthTest::IfLessOrEqual,
            depth_write: true,
            front: Winding::CounterClockwise,
            stencil_test: StencilTest::AlwaysPass,
            stencil_operation: StencilOperation::Keep,
            stencil_reference: 0,
        }
    );
    assert_eq!(
        render_state(Pass::Stencil),
        RenderState {
            depth_test: DepthTest::IfLessOrEqual,
            depth_write: false,
            front: Winding::CounterClockwise,
            stencil_test: StencilTest::AlwaysPass,
            stencil_operation: StencilOperation::Replace,
            stencil_reference: 1,
        }
    );
    assert_eq!(
        render_state(Pass::Reflected),
        RenderState {
            depth_test: DepthTest::IfLessOrEqual,
            depth_write: true,
            front: Winding::Clockwise,
            stencil_test: StencilTest::IfEqual { mask: 0xFF },
            stencil_operation: StencilOperation::Keep,
            stencil_reference: 1,
        }
    );
    assert_eq!(MIRROR_STAMP, 1);
}

#[test]
fn reflection_reverses_the_winding() {
    assert_ne!(render_state(Pass::Reflected).front, render_state(Pass::Direct).front);
    assert_eq!(render_state(Pass::Stencil).front, render_state(Pass::Direct).front);
}
