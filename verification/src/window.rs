//! The window configurator: translates a requested display mode plus
//! an always-on-top flag into a sequence of idempotent primitive
//! window operations. The operations themselves are carried out by
//! the shell against the real window system; planning and its laws
//! (idempotence, independence of the always-on-top step) live here.

use vstd::prelude::*;
use crate::model::WindowMode;

verus! {

/// One primitive operation against the primary window.
#[derive(Clone, Copy, Debug, PartialEq, Eq, Structural)]
pub enum WindowOp {
    SetFullscreen(bool),
    SetDecorations(bool),
    Maximize,
    Unmaximize,
    Center,
    SetAlwaysOnTop(bool),
}

/// Abstract configuration of the primary window: the attributes the
/// primitive operations act on.
#[derive(Clone, Copy, Debug, PartialEq, Eq, Structural)]
pub struct WindowConfig {
    pub fullscreen: bool,
    pub decorations: bool,
    pub maximized: bool,
    pub centered: bool,
    pub always_on_top: bool,
}

/// Effect of one primitive operation on the abstract configuration.
pub open spec fn spec_apply_op(c: WindowConfig, op: WindowOp) -> WindowConfig {
    match op {
        WindowOp::SetFullscreen(b) => WindowConfig { fullscreen: b, ..c },
        WindowOp::SetDecorations(b) => WindowConfig { decorations: b, ..c },
        WindowOp::Maximize => WindowConfig { maximized: true, ..c },
        WindowOp::Unmaximize => WindowConfig { maximized: false, ..c },
        WindowOp::Center => WindowConfig { centered: true, ..c },
        WindowOp::SetAlwaysOnTop(b) => WindowConfig { always_on_top: b, ..c },
    }
}

/// Effect of a sequence of operations, applied left to right.
pub open spec fn spec_apply_ops(c: WindowConfig, ops: Seq<WindowOp>) -> WindowConfig
    decreases ops.len(),
{
    if ops.len() == 0 {
        c
    } else {
        spec_apply_ops(spec_apply_op(c, ops[0]), ops.drop_first())
    }
}

/// The operations that realise one display mode, before the final
/// always-on-top step.
pub open spec fn spec_mode_ops(mode: WindowMode) -> Seq<WindowOp> {
    match mode {
        WindowMode::FullscreenFramed => seq![
            WindowOp::SetFullscreen(false),
            WindowOp::SetDecorations(true),
            WindowOp::Maximize,
        ],
        WindowMode::Windowed => seq![
            WindowOp::SetFullscreen(false),
            WindowOp::SetDecorations(true),
            WindowOp::Unmaximize,
            WindowOp::Center,
        ],
        WindowMode::FullscreenBorderless => seq![
            WindowOp::SetDecorations(false),
            WindowOp::SetFullscreen(true),
        ],
        WindowMode::Borderless => seq![
            WindowOp::SetFullscreen(false),
            WindowOp::SetDecorations(false),
            WindowOp::Maximize,
        ],
    }
}

/// The full plan for a requested pair: the mode's operations, then,
/// independently of the mode, the always-on-top step.
pub open spec fn spec_window_plan(mode: WindowMode, always_on_top: bool) -> Seq<WindowOp> {
    spec_mode_ops(mode).push(WindowOp::SetAlwaysOnTop(always_on_top))
}

/// Plans the operations for a requested `(mode, always_on_top)` pair.
/// The caller performs them in order against the window system and
/// stops at the first failure.
pub fn apply_window_settings(mode: WindowMode, always_on_top: bool) -> (r: Vec<WindowOp>)
    ensures
        r@ == spec_window_plan(mode, always_on_top),
{
    let mut ops: Vec<WindowOp> = Vec::new();
    match mode {
        WindowMode::FullscreenFramed => {
            ops.push(WindowOp::SetFullscreen(false));
            ops.push(WindowOp::SetDecorations(true));
            ops.push(WindowOp::Maximize);
        },
        WindowMode::Windowed => {
            ops.push(WindowOp::SetFullscreen(false));
            ops.push(WindowOp::SetDecorations(true));
            ops.push(WindowOp::Unmaximize);
            ops.push(WindowOp::Center);
        },
        WindowMode::FullscreenBorderless => {
            ops.push(WindowOp::SetDecorations(false));
            ops.push(WindowOp::SetFullscreen(true));
        },
        WindowMode::Borderless => {
            ops.push(WindowOp::SetFullscreen(false));
            ops.push(WindowOp::SetDecorations(false));
            ops.push(WindowOp::Maximize);
        },
    }
    ops.push(WindowOp::SetAlwaysOnTop(always_on_top));
    proof {
        assert(ops@ =~= spec_window_plan(mode, always_on_top));
    }
    ops
}

/// Applies a sequence of operations to an abstract configuration,
/// mirroring [`spec_apply_ops`]. This lets the plan be exercised
/// without a real window system.
pub fn apply_ops(c: WindowConfig, ops: &Vec<WindowOp>) -> (r: WindowConfig)
    ensures
        r == spec_apply_ops(c, ops@),
{
    let mut cur = c;
    let mut i: usize = 0;
    proof {
        assert(ops@.skip(0) =~= ops@);
    }
    while i < ops.len()
        invariant
            i <= ops.len(),
            spec_apply_ops(c, ops@) == spec_apply_ops(cur, ops@.skip(i as int)),
        decreases ops.len() - i,
    {
        proof {
            assert(ops@.skip(i as int).drop_first() =~= ops@.skip(i as int + 1));
            assert(ops@.skip(i as int)[0] == ops@[i as int]);
        }
        cur = match ops[i] {
            WindowOp::SetFullscreen(b) => WindowConfig { fullscreen: b, ..cur },
            WindowOp::SetDecorations(b) => WindowConfig { decorations: b, ..cur },
            WindowOp::Maximize => WindowConfig { maximized: true, ..cur },
            WindowOp::Unmaximize => WindowConfig { maximized: false, ..cur },
            WindowOp::Center => WindowConfig { centered: true, ..cur },
            WindowOp::SetAlwaysOnTop(b) => WindowConfig { always_on_top: b, ..cur },
        };
        i = i + 1;
    }
    proof {
        assert(ops@.skip(i as int) =~= Seq::<WindowOp>::empty());
    }
    cur
}

/// Applying the plan for a mode is idempotent: applying the same
/// `(mode, always_on_top)` plan twice yields the same configuration
/// as applying it once, from any starting configuration.
pub proof fn lemma_window_plan_idempotent(c: WindowConfig, mode: WindowMode, on_top: bool)
    ensures
        spec_apply_ops(spec_apply_ops(c, spec_window_plan(mode, on_top)), spec_window_plan(mode, on_top))
            == spec_apply_ops(c, spec_window_plan(mode, on_top)),
{
    reveal_with_fuel(spec_apply_ops, 6);
}

/// The always-on-top step is independent of the mode: two plans for
/// the same mode that differ only in the flag produce configurations
/// that agree on everything but `always_on_top`, which follows the
/// flag.
pub proof fn lemma_always_on_top_independent(
    c: WindowConfig,
    mode: WindowMode,
    t1: bool,
    t2: bool,
)
    ensures
        ({
            let r1 = spec_apply_ops(c, spec_window_plan(mode, t1));
            let r2 = spec_apply_ops(c, spec_window_plan(mode, t2));
            r1.fullscreen == r2.fullscreen
                && r1.decorations == r2.decorations
                && r1.maximized == r2.maximized
                && r1.centered == r2.centered
                && r1.always_on_top == t1
                && r2.always_on_top == t2
        }),
{
    reveal_with_fuel(spec_apply_ops, 6);
}

} // verus!
