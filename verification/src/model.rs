//! The mathematical value of the simulation state, and the operations on it.
use vstd::prelude::*;
use crate::field_vis::{sampled, FieldNode};
use crate::fixed::fx_add_spec;
use crate::planet::Body;
use crate::preview::{hits_any, preview_force};
use crate::simulation::{square_upto, spawned, App, Prediction};
use crate::step::{stepped, FIELD_UPDATE_PERIOD};
use crate::vector::Vec2;

verus! {

/// The value of an `App`.
pub struct AppModel {
    pub bodies: Seq<Body>,
    pub pl_id_count: u32,
    pub paused: bool,
    pub unpaused_time: i64,
    pub trails_enabled: bool,
    /// The preview body.
    pub preview: Body,
    /// Whether the preview has run into a live body.
    pub colliding: bool,
    /// The sample points of the field.
    pub field: Seq<FieldNode>,
    pub field_v_update_timer: i64,
    pub show_field: bool,
    pub mouse_click_pos: Vec2,
    pub last_mouse_pos: Vec2,
    pub planet_spawn_size: i64,
}

impl View for App {
    type V = AppModel;

    open spec fn view(&self) -> AppModel {
        AppModel {
            bodies: self.bodies(),
            pl_id_count: self.pl_id_count,
            paused: self.paused,
            unpaused_time: self.unpaused_time,
            trails_enabled: self.trails_enabled,
            preview: self.prediction.body@,
            colliding: self.prediction.colliding,
            field: self.field_v.nodes@,
            field_v_update_timer: self.field_v_update_timer,
            show_field: self.show_field,
            mouse_click_pos: self.mouse_click_pos,
            last_mouse_pos: self.last_mouse_pos,
            planet_spawn_size: self.planet_spawn_size,
        }
    }
}

impl AppModel {
    /// The state after a body was added.
    pub open spec fn spawn(self, pos: Vec2, vel: Vec2, rad: i64, stat: bool) -> AppModel {
        AppModel {
            bodies: spawned(self.bodies, self.pl_id_count, pos, vel, rad, stat).0,
            pl_id_count: spawned(self.bodies, self.pl_id_count, pos, vel, rad, stat).1,
            ..self
        }
    }

    /// The state after a grid of `w` columns of `h` bodies was added.
    pub open spec fn square(
        self,
        origin: Vec2,
        stat: bool,
        rad: i64,
        sep: i64,
        w: int,
        h: int,
    ) -> AppModel {
        AppModel {
            bodies: square_upto(self.bodies, self.pl_id_count, origin, stat, rad, sep, h, w * h).0,
            pl_id_count: square_upto(
                self.bodies,
                self.pl_id_count,
                origin,
                stat,
                rad,
                sep,
                h,
                w * h,
            ).1,
            ..self
        }
    }

    /// The state after the field was sampled anew.
    pub open spec fn resampled(self) -> AppModel {
        AppModel { field: sampled(self.field, self.bodies), ..self }
    }

    /// Whether a tick of length `dt` samples the field anew: the simulation
    /// runs, the field is shown, and with this tick more than the update
    /// period has passed since the last sampling.
    pub open spec fn resamples(self, dt: i64) -> bool {
        !self.paused && self.show_field && fx_add_spec(self.field_v_update_timer, dt)
            > FIELD_UPDATE_PERIOD
    }

    /// The state after a tick of length `dt`. A paused simulation stays as
    /// it is. A running one moves its clock and its field timer on by `dt`
    /// and takes its bodies through one step; if the field is shown and the
    /// timer has passed the update period, the field is sampled from the
    /// new bodies and the timer starts again.
    pub open spec fn updated(self, dt: i64) -> AppModel {
        if self.paused {
            self
        } else {
            let time = fx_add_spec(self.unpaused_time, dt);
            let timer = fx_add_spec(self.field_v_update_timer, dt);
            let moved = AppModel {
                bodies: stepped(self.bodies, dt, time, self.trails_enabled),
                unpaused_time: time,
                field_v_update_timer: timer,
                ..self
            };
            if self.resamples(dt) {
                AppModel { field_v_update_timer: 0, ..moved.resampled() }
            } else {
                moved
            }
        }
    }

    /// The state after the preview was put at the start of a new launch.
    pub open spec fn preview_reset(self, pos: Vec2, vel: Vec2, rad: i64) -> AppModel {
        AppModel {
            preview: Prediction::reset_body(self.preview, pos, vel, rad),
            colliding: false,
            ..self
        }
    }

    /// The state after the preview was moved ahead by `dt`: unchanged once
    /// the preview has collided; latched where it overlaps a live body now;
    /// else integrated under the pull of the live bodies.
    pub open spec fn preview_advanced(self, dt: i64) -> AppModel {
        if self.colliding {
            self
        } else if hits_any(self.preview, self.bodies, self.bodies.len() as int) {
            AppModel { colliding: true, ..self }
        } else {
            AppModel {
                preview: self.preview.with_force(
                    preview_force(self.preview, self.bodies, self.bodies.len() as int),
                ).advanced(dt, 0, true),
                ..self
            }
        }
    }
}

} // verus!
