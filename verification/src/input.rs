//! What the pointer and the keys do to the simulation.
use vstd::prelude::*;
use crate::fixed::{fx_add, fx_add_spec, fx_sub, fx_sub_spec, mul_div, mul_div_spec, SCALE};
use crate::ids::ID_WRAP;
use crate::model::AppModel;
use crate::planet::MIN_RADIUS;
use crate::simulation::App;
use crate::vector::Vec2;

verus! {

/// The preview runs ahead of the simulation by this factor.
pub const PREVIEW_SPEEDUP: i64 = 12;

/// The pointer must move at least this far before the preview starts anew:
/// two units.
pub const DRAG_THRESHOLD: i64 = 2_000_000_000;

/// Gap between the bodies of a grid spawned by the pointer: five units.
pub const SQUARE_SEPARATION: i64 = 5_000_000_000;

/// Columns and rows of a grid spawned by the pointer.
pub const SQUARE_SIDE: u32 = 10;

/// The state of pointer and keys in one frame.
#[derive(Clone, Copy, Debug, PartialEq, Eq, Structural)]
pub struct Input {
    /// Position of the pointer.
    pub mouse: Vec2,
    /// The launch button is held down.
    pub left_down: bool,
    /// The launch button went down in this frame.
    pub left_pressed: bool,
    /// The launch button came up in this frame.
    pub left_released: bool,
    /// The button that spawns a grid went down in this frame.
    pub right_pressed: bool,
    /// The button that spawns a stationary body went down in this frame.
    pub middle_pressed: bool,
    /// The key that enlarges spawned bodies went down in this frame.
    pub key_up: bool,
    /// The key that shrinks spawned bodies went down in this frame.
    pub key_down: bool,
    /// The key that pauses and resumes went down in this frame.
    pub key_pause: bool,
    /// The key that shows and hides the field went down in this frame.
    pub key_field: bool,
}

/// While the launch button is held, the preview runs ahead, and starts anew
/// from the point of the click whenever the pointer has moved far enough:
/// the launch velocity is the displacement from the pointer to that point.
pub open spec fn dragged(m: AppModel, input: Input, dt: i64) -> AppModel {
    if !input.left_down {
        m
    } else {
        let moved = m.preview_advanced(mul_div_spec(dt, PREVIEW_SPEEDUP, 1));
        if input.mouse.minus_spec(moved.last_mouse_pos).length_spec() >= DRAG_THRESHOLD {
            (AppModel { last_mouse_pos: input.mouse, ..moved }).preview_reset(
                moved.mouse_click_pos,
                moved.mouse_click_pos.minus_spec(input.mouse),
                moved.planet_spawn_size,
            )
        } else {
            moved
        }
    }
}

/// Pressing the launch button pauses the simulation and starts a preview at
/// the pointer. Releasing it launches a body from the point of the click,
/// resumes the simulation and puts the preview away.
pub open spec fn clicked(m: AppModel, input: Input) -> AppModel {
    if input.left_pressed {
        (AppModel {
            mouse_click_pos: input.mouse,
            last_mouse_pos: input.mouse,
            paused: true,
            ..m
        }).preview_reset(input.mouse, Vec2::zero_spec(), m.planet_spawn_size)
    } else if input.left_released {
        (AppModel {
            paused: false,
            ..m.spawn(
                m.mouse_click_pos,
                m.mouse_click_pos.minus_spec(input.mouse),
                m.planet_spawn_size,
                false,
            )
        }).preview_reset(Vec2::zero_spec(), Vec2::zero_spec(), m.planet_spawn_size)
    } else {
        m
    }
}

/// One button spawns a grid of moving bodies at the pointer.
pub open spec fn grid_spawned(m: AppModel, input: Input) -> AppModel {
    if input.right_pressed {
        m.square(
            input.mouse,
            false,
            m.planet_spawn_size,
            SQUARE_SEPARATION,
            SQUARE_SIDE as int,
            SQUARE_SIDE as int,
        )
    } else {
        m
    }
}

/// One button spawns a stationary body at the pointer.
pub open spec fn anchor_spawned(m: AppModel, input: Input) -> AppModel {
    if input.middle_pressed {
        m.spawn(input.mouse, Vec2::zero_spec(), m.planet_spawn_size, true)
    } else {
        m
    }
}

/// The spawn size after the keys: one unit more, or one unit less while
/// it is above one unit, but never less than the smallest radius.
pub open spec fn resized(size: i64, input: Input) -> i64 {
    if input.key_up {
        fx_add_spec(size, SCALE)
    } else if input.key_down && size > SCALE {
        if fx_sub_spec(size, SCALE) < MIN_RADIUS {
            MIN_RADIUS
        } else {
            fx_sub_spec(size, SCALE)
        }
    } else {
        size
    }
}

/// The keys change the spawn size, pause or resume, and show or hide the
/// field.
pub open spec fn keyed(m: AppModel, input: Input) -> AppModel {
    AppModel {
        planet_spawn_size: resized(m.planet_spawn_size, input),
        paused: m.paused != input.key_pause,
        show_field: m.show_field != input.key_field,
        ..m
    }
}

/// The state after one frame's input: the drag, the launch button, the two
/// spawning buttons and the keys, in this order.
pub open spec fn input_applied(m: AppModel, input: Input, dt: i64) -> AppModel {
    keyed(anchor_spawned(grid_spawned(clicked(dragged(m, input, dt), input), input), input), input)
}

impl App {
    /// The part of a frame's input that the held launch button plays.
    pub fn drag(&mut self, input: &Input, dt: i64)
        requires
            old(self).wf(),
        ensures
            final(self).wf(),
            final(self)@ == dragged(old(self)@, *input, dt),
            final(self).planets@.len() == old(self).planets@.len(),
    {
        if input.left_down {
            if !self.prediction.colliding {
                self.update_prediction(mul_div(dt, PREVIEW_SPEEDUP, 1));
            }
            if input.mouse.minus(self.last_mouse_pos).length() >= DRAG_THRESHOLD {
                self.last_mouse_pos = input.mouse;
                self.prediction.reset(
                    self.mouse_click_pos,
                    self.mouse_click_pos.minus(self.last_mouse_pos),
                    self.planet_spawn_size,
                );
            }
        }
    }

    /// The part of a frame's input that pressing or releasing the launch
    /// button plays.
    pub fn click(&mut self, input: &Input)
        requires
            old(self).wf(),
            old(self).planets@.len() < ID_WRAP,
        ensures
            final(self).wf(),
            final(self)@ == clicked(old(self)@, *input),
            final(self).planets@.len() <= old(self).planets@.len() + 1,
    {
        if input.left_pressed {
            self.mouse_click_pos = input.mouse;
            self.last_mouse_pos = self.mouse_click_pos;
            self.prediction.reset(self.mouse_click_pos, Vec2::zero(), self.planet_spawn_size);
            self.paused = true;
        } else if input.left_released {
            self.add_planet(
                self.mouse_click_pos,
                self.mouse_click_pos.minus(input.mouse),
                self.planet_spawn_size,
                false,
            );
            self.paused = false;
            self.prediction.reset(Vec2::zero(), Vec2::zero(), self.planet_spawn_size);
        }
    }

    /// The part of a frame's input that the two spawning buttons play.
    pub fn spawn_at_pointer(&mut self, input: &Input)
        requires
            old(self).wf(),
            old(self).planets@.len() + SQUARE_SIDE * SQUARE_SIDE + 1 <= ID_WRAP,
        ensures
            final(self).wf(),
            final(self)@ == anchor_spawned(grid_spawned(old(self)@, *input), *input),
    {
        if input.right_pressed {
            self.make_square(
                input.mouse,
                false,
                self.planet_spawn_size,
                SQUARE_SEPARATION,
                SQUARE_SIDE,
                SQUARE_SIDE,
            );
        }
        if input.middle_pressed {
            self.add_planet(input.mouse, Vec2::zero(), self.planet_spawn_size, true);
        }
    }

    /// The part of a frame's input that the keys play.
    pub fn apply_keys(&mut self, input: &Input)
        requires
            old(self).wf(),
        ensures
            final(self).wf(),
            final(self)@ == keyed(old(self)@, *input),
    {
        if input.key_up {
            self.planet_spawn_size = fx_add(self.planet_spawn_size, SCALE);
        } else if input.key_down {
            if self.planet_spawn_size > SCALE {
                let smaller: i64 = fx_sub(self.planet_spawn_size, SCALE);
                self.planet_spawn_size = if smaller < MIN_RADIUS {
                    MIN_RADIUS
                } else {
                    smaller
                };
            }
        }
        if input.key_pause {
            self.paused = !self.paused;
        }
        if input.key_field {
            self.show_field = !self.show_field;
        }
    }

    /// Applies one frame's input, where `dt` is the length of the frame.
    ///
    /// There must be room for the bodies that one frame can spawn: a grid
    /// and two single bodies.
    pub fn get_input(&mut self, input: &Input, dt: i64)
        requires
            old(self).wf(),
            old(self).planets@.len() + SQUARE_SIDE * SQUARE_SIDE + 2 <= ID_WRAP,
        ensures
            final(self).wf(),
            final(self)@ == input_applied(old(self)@, *input, dt),
    {
        self.drag(input, dt);
        self.click(input);
        self.spawn_at_pointer(input);
        self.apply_keys(input);
    }
}

} // verus!
