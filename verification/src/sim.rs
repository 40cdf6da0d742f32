//! The square simulation: a bounded population of short-lived squares.
//!
//! Each tick, every live square integrates its motion (position, rotation
//! and scale each advance by a per-square velocity), counts its lifetime
//! down, and rewrites its registered transform; a square whose lifetime runs
//! out is dropped and its registry handle released. A cooldown counter gates
//! spawning: when it runs out it is reset, and a new square enters — with the
//! caller-supplied spawn parameters — unless the population is at its cap.

use vstd::prelude::*;

use crate::numeric::add_bits;
use crate::numeric::add_f32_bits;
use crate::registry::MeshHandle;
use crate::registry::Renderer;
use crate::seq_facts::lemma_filter_elem_of;
use crate::seq_facts::lemma_filter_take_step;
use crate::transform::SquareTransform;

verus! {

/// The most squares alive at once.
pub const MAX_SQUARES: usize = 16;

/// Ticks between one spawn opportunity and the next.
pub const SPAWN_COOLDOWN: u32 = 200;

/// The guaranteed part of a fresh square's lifetime, in ticks.
pub const BASE_TIME_LEFT: u32 = 700;

/// One live square: its pose and per-tick velocities as IEEE-754 binary32
/// bit patterns, the ticks it has left, and the handle of its registered
/// transform.
#[derive(Copy, Clone, Debug, PartialEq, Eq, Structural)]
pub struct Square {
    pub position_x: u32,
    pub position_y: u32,
    pub rotation: u32,
    pub scale: u32,
    pub velocity_x: u32,
    pub velocity_y: u32,
    pub rotation_velocity: u32,
    pub scale_velocity: u32,
    pub time_left: u32,
    pub mesh: MeshHandle,
}

impl Square {
    /// The transform record this square contributes: its position and
    /// rotation, with the one scale applied to both axes.
    pub open spec fn transform(self) -> SquareTransform {
        SquareTransform {
            position_x: self.position_x,
            position_y: self.position_y,
            rotation: self.rotation,
            scale_x: self.scale,
            scale_y: self.scale,
        }
    }

    /// One tick: each pose attribute advances by its velocity, and the
    /// lifetime counts down.
    pub open spec fn stepped(self) -> Square {
        Square {
            position_x: add_bits(self.position_x, self.velocity_x),
            position_y: add_bits(self.position_y, self.velocity_y),
            rotation: add_bits(self.rotation, self.rotation_velocity),
            scale: add_bits(self.scale, self.scale_velocity),
            time_left: if self.time_left == 0 {
                0u32
            } else {
                (self.time_left - 1) as u32
            },
            ..self
        }
    }
}

/// Everything a new square starts from: its initial pose and velocities (as
/// binary32 bit patterns) and its lifetime in ticks.
#[derive(Copy, Clone, Debug, PartialEq, Eq, Structural)]
pub struct SpawnParams {
    pub position_x: u32,
    pub position_y: u32,
    pub rotation: u32,
    pub scale: u32,
    pub velocity_x: u32,
    pub velocity_y: u32,
    pub rotation_velocity: u32,
    pub scale_velocity: u32,
    pub time_left: u32,
}

impl SpawnParams {
    /// The square these parameters spawn, once a registry handle is issued.
    pub open spec fn square_with(self, mesh: MeshHandle) -> Square {
        Square {
            position_x: self.position_x,
            position_y: self.position_y,
            rotation: self.rotation,
            scale: self.scale,
            velocity_x: self.velocity_x,
            velocity_y: self.velocity_y,
            rotation_velocity: self.rotation_velocity,
            scale_velocity: self.scale_velocity,
            time_left: self.time_left,
            mesh,
        }
    }

    fn to_square(&self, mesh: MeshHandle) -> (s: Square)
        ensures
            s == self.square_with(mesh),
    {
        Square {
            position_x: self.position_x,
            position_y: self.position_y,
            rotation: self.rotation,
            scale: self.scale,
            velocity_x: self.velocity_x,
            velocity_y: self.velocity_y,
            rotation_velocity: self.rotation_velocity,
            scale_velocity: self.scale_velocity,
            time_left: self.time_left,
            mesh,
        }
    }
}

/// Relies on rand's `random`, which draws a `u32` from the thread-local
/// generator under the `Standard` distribution. Nothing can be promised of
/// the value drawn.
#[verifier::external_body]
fn random_u32() -> u32 {
    rand::random::<u32>()
}

/// A fresh square's lifetime: the guaranteed base plus a random nibble of
/// extra ticks.
pub fn fresh_spawn_time_left() -> (t: u32)
    ensures
        BASE_TIME_LEFT <= t <= BASE_TIME_LEFT + 15,
{
    let r: u32 = random_u32();
    let extra = r >> 28;
    proof {
        assert(r >> 28 <= 15) by (bit_vector);
    }
    BASE_TIME_LEFT + extra
}

/// Whether some square in `objs` holds the handle `g`.
pub open spec fn has_mesh(objs: Seq<Square>, g: MeshHandle) -> bool {
    exists|k: int| 0 <= k < objs.len() && objs[k].mesh == g
}

/// The squares that come out of one tick of motion and lifetime countdown:
/// every square steps, and those whose lifetime has run out drop, the rest
/// keeping their relative order.
pub open spec fn stepped_survivors(objs: Seq<Square>) -> Seq<Square> {
    objs.map_values(|s: Square| s.stepped()).filter(|s: Square| s.time_left != 0)
}

/// No two squares hold the same registry handle.
pub open spec fn distinct_meshes(objs: Seq<Square>) -> bool {
    forall|i: int, j: int| 0 <= i < j < objs.len() ==> objs[i].mesh != objs[j].mesh
}

/// The index of the square holding `g`; meaningful when `has_mesh` holds.
pub open spec fn mesh_index(objs: Seq<Square>, g: MeshHandle) -> int {
    choose|k: int| 0 <= k < objs.len() && objs[k].mesh == g
}

/// The square holding `g`; meaningful when `has_mesh` holds.
pub open spec fn mesh_square(objs: Seq<Square>, g: MeshHandle) -> Square {
    objs[mesh_index(objs, g)]
}

/// What one tick consumes: the spawn parameters offered to it, and the
/// registry handle the spawned square would receive.
#[derive(Copy, Clone, Debug, PartialEq, Eq, Structural)]
pub struct TickInput {
    pub spawn: SpawnParams,
    pub handle: MeshHandle,
}

/// The squares after one tick, as `update` leaves them: every square steps,
/// the expired drop, and — when the cooldown has run out and the tick began
/// with the population below the cap — the offered square enters.
pub open spec fn tick_squares(objs: Seq<Square>, cooldown: u32, input: TickInput) -> Seq<Square> {
    let survivors = stepped_survivors(objs);
    if cooldown == 1 && objs.len() < MAX_SQUARES {
        survivors.push(input.spawn.square_with(input.handle))
    } else {
        survivors
    }
}

/// The cooldown after one tick, as `update` leaves it.
pub open spec fn tick_cooldown(cooldown: u32) -> u32 {
    if cooldown == 1 {
        SPAWN_COOLDOWN
    } else {
        (cooldown - 1) as u32
    }
}

/// The squares after a whole run of ticks.
pub open spec fn run_squares(objs: Seq<Square>, cooldown: u32, inputs: Seq<TickInput>) -> Seq<
    Square,
>
    decreases inputs.len(),
{
    if inputs.len() == 0 {
        objs
    } else {
        run_squares(
            tick_squares(objs, cooldown, inputs.first()),
            tick_cooldown(cooldown),
            inputs.drop_first(),
        )
    }
}

/// The square simulation: the live squares in spawn order, and the spawn
/// cooldown counter.
pub struct MyApp {
    objects: Vec<Square>,
    add_obj_cooldown: u32,
}

impl MyApp {
    /// The live squares, oldest first.
    pub closed spec fn squares(&self) -> Seq<Square> {
        self.objects@
    }

    /// Ticks until the next spawn opportunity.
    pub closed spec fn cooldown(&self) -> u32 {
        self.add_obj_cooldown
    }

    /// The simulation's own invariant: the population respects the cap, the
    /// cooldown is counting, and every square has lifetime left.
    pub open spec fn wf(&self) -> bool {
        &&& self.squares().len() <= MAX_SQUARES
        &&& self.cooldown() >= 1
        &&& forall|i: int|
            0 <= i < self.squares().len() ==> (#[trigger] self.squares()[i]).time_left >= 1
    }

    /// How the simulation is coupled to the registry: each square's handle
    /// is live, no two squares share one, and each registered transform is
    /// the square's own.
    pub open spec fn registered(&self, r: &Renderer) -> bool {
        &&& forall|i: int|
            0 <= i < self.squares().len() ==> r.handle_live((#[trigger] self.squares()[i]).mesh)
        &&& forall|i: int, j: int|
            0 <= i < j < self.squares().len() ==> self.squares()[i].mesh != self.squares()[j].mesh
        &&& forall|i: int|
            0 <= i < self.squares().len() ==> r.transform_of((#[trigger] self.squares()[i]).mesh)
                == self.squares()[i].transform()
    }

    /// Whether this tick spawns: the cooldown runs out and the tick begins
    /// with the population below the cap. A square expiring this same tick
    /// frees no room until the next spawn opportunity.
    pub open spec fn spawn_allowed(&self) -> bool {
        self.cooldown() == 1 && self.squares().len() < MAX_SQUARES
    }

    pub fn new() -> (app: MyApp)
        ensures
            app.wf(),
            app.squares() == Seq::<Square>::empty(),
            app.cooldown() == 1,
    {
        MyApp { objects: Vec::new(), add_obj_cooldown: 1 }
    }

    /// The number of live squares.
    pub fn population(&self) -> (n: usize)
        ensures
            n == self.squares().len(),
    {
        self.objects.len()
    }

    /// Ticks until the next spawn opportunity.
    pub fn cooldown_remaining(&self) -> (c: u32)
        ensures
            c == self.cooldown(),
    {
        self.add_obj_cooldown
    }

    /// One simulation tick.
    ///
    /// Every square steps and rewrites its registered transform; expired
    /// squares leave and release their handles. Then, if the cooldown ran
    /// out, it resets, and a new square built from `spawn` enters — and
    /// registers its transform — unless the tick began with the population
    /// at the cap. Returns the handle of the square spawned this tick, if
    /// any.
    #[verifier::loop_isolation(false)]
    pub fn update(&mut self, renderer: &mut Renderer, spawn: &SpawnParams) -> (spawned: Option<
        MeshHandle,
    >)
        requires
            old(self).wf(),
            old(renderer).wf(),
            old(self).registered(old(renderer)),
            spawn.time_left >= 1,
        ensures
            final(self).wf(),
            final(renderer).wf(),
            final(self).registered(final(renderer)),
            final(self).cooldown() == tick_cooldown(old(self).cooldown()),
            (spawned is Some) == old(self).spawn_allowed(),
            spawned matches Some(h) ==> final(self).squares() == stepped_survivors(
                old(self).squares(),
            ).push(spawn.square_with(h)),
            spawned is None ==> final(self).squares() == stepped_survivors(old(self).squares()),
            spawned matches Some(h) ==> final(self).squares() == tick_squares(
                old(self).squares(),
                old(self).cooldown(),
                (TickInput { spawn: *spawn, handle: h }),
            ),
            spawned is None ==> forall|inp: TickInput|
                tick_squares(old(self).squares(), old(self).cooldown(), inp) == final(
                self).squares(),
            spawned matches Some(h) ==> final(renderer).order() == old(renderer).order().push(h),
            spawned is None ==> final(renderer).order() == old(renderer).order(),
            spawned matches Some(h) ==> !has_mesh(stepped_survivors(old(self).squares()), h)
                && !old(renderer).issued(h),
            forall|k: int|
                0 <= k < old(self).squares().len() && (#[trigger] old(self).squares()[k]).time_left
                    == 1 ==> !final(renderer).handle_live(old(self).squares()[k].mesh),
            forall|k: int|
                0 <= k < old(self).squares().len() && (#[trigger] old(self).squares()[k]).time_left
                    != 1 ==> final(renderer).handle_live(old(self).squares()[k].mesh)
                    && final(renderer).transform_of(old(self).squares()[k].mesh)
                    == old(self).squares()[k].stepped().transform(),
            forall|g: MeshHandle|
                !has_mesh(old(self).squares(), g) && Some(g) != spawned
                    ==> final(renderer).handle_live(g) == old(renderer).handle_live(g)
                    && (old(renderer).handle_live(g) ==> final(renderer).transform_of(g) == old(
                    renderer).transform_of(g)),
            forall|g: MeshHandle| old(renderer).issued(g) ==> final(renderer).issued(g),
    {
        let ghost objs = self.objects@;
        let ghost stepped_all = objs.map_values(|s: Square| s.stepped());
        let ghost alive = |s: Square| s.time_left != 0;
        let mut survivors: Vec<Square> = Vec::new();
        let n = self.objects.len();
        for i in 0..n
            invariant
                n == self.objects@.len(),
                survivors@ == stepped_all.take(i as int).filter(alive),
                survivors@.len() <= i,
                renderer.wf(),
                renderer.order() == old(renderer).order(),
                forall|k: int|
                    0 <= k < i && (#[trigger] objs[k]).time_left == 1 ==> !renderer.handle_live(
                        objs[k].mesh,
                    ),
                forall|k: int|
                    0 <= k < i && (#[trigger] objs[k]).time_left != 1 ==> renderer.handle_live(
                        objs[k].mesh,
                    ) && renderer.transform_of(objs[k].mesh) == objs[k].stepped().transform(),
                forall|k: int|
                    i <= k < n ==> renderer.handle_live((#[trigger] objs[k]).mesh)
                        && renderer.transform_of(objs[k].mesh) == objs[k].transform(),
                forall|g: MeshHandle|
                    !has_mesh(objs, g) ==> renderer.handle_live(g) == old(renderer).handle_live(g)
                        && (old(renderer).handle_live(g) ==> renderer.transform_of(g) == old(
                        renderer).transform_of(g)),
                forall|j: int|
                    0 <= j < survivors@.len() ==> renderer.handle_live(
                        (#[trigger] survivors@[j]).mesh,
                    ) && renderer.transform_of(survivors@[j].mesh) == survivors@[j].transform()
                        && survivors@[j].time_left >= 1,
                forall|j: int, k: int|
                    0 <= j < k < survivors@.len() ==> survivors@[j].mesh != survivors@[k].mesh,
                forall|j: int, k: int|
                    0 <= j < survivors@.len() && i <= k < n ==> survivors@[j].mesh != objs[k].mesh,
                forall|g: MeshHandle| old(renderer).issued(g) ==> renderer.issued(g),
        {
            let s = self.objects[i];
            proof {
                assert(stepped_all[i as int] == s.stepped());
                lemma_filter_take_step(stepped_all, alive, i as int);
            }
            if s.time_left == 1 {
                renderer.release(s.mesh);
                proof {
                    assert(stepped_all.take(i as int + 1).filter(alive) =~= survivors@);
                }
            } else {
                let s2 = Square {
                    position_x: add_f32_bits(s.position_x, s.velocity_x),
                    position_y: add_f32_bits(s.position_y, s.velocity_y),
                    rotation: add_f32_bits(s.rotation, s.rotation_velocity),
                    scale: add_f32_bits(s.scale, s.scale_velocity),
                    time_left: s.time_left - 1,
                    ..s
                };
                proof {
                    assert(s2 == s.stepped());
                }
                renderer.set_transform(
                    s.mesh,
                    SquareTransform::new(s2.position_x, s2.position_y, s2.rotation, s2.scale, s2.scale),
                );
                survivors.push(s2);
            }
        }
        proof {
            assert(stepped_all.take(n as int) =~= stepped_all);
            assert(survivors@ == stepped_survivors(objs));
        }
        let spawned: Option<MeshHandle>;
        if self.add_obj_cooldown == 1 {
            self.add_obj_cooldown = SPAWN_COOLDOWN;
            // self.objects still holds the squares the tick began with.
            if self.objects.len() < MAX_SQUARES {
                let t = SquareTransform::new(
                    spawn.position_x,
                    spawn.position_y,
                    spawn.rotation,
                    spawn.scale,
                    spawn.scale,
                );
                let ghost mid = *renderer;
                let h = renderer.add_mesh(t);
                proof {
                    // The fresh handle was never issued, while every square's
                    // handle — dead or alive — already was; so they differ.
                    assert forall|k: int| 0 <= k < objs.len() implies (#[trigger] objs[k]).mesh
                        != h by {
                        old(renderer).lemma_live_issued(objs[k].mesh);
                    };
                    assert forall|j: int|
                        0 <= j < survivors@.len() implies (#[trigger] survivors@[j]).mesh != h by {
                        mid.lemma_live_issued(survivors@[j].mesh);
                    };
                }
                let sq = spawn.to_square(h);
                survivors.push(sq);
                spawned = Some(h);
            } else {
                spawned = None;
            }
        } else {
            self.add_obj_cooldown = self.add_obj_cooldown - 1;
            spawned = None;
        }
        self.objects = survivors;
        spawned
    }
}

/// Under distinct handles, `mesh_square` picks exactly the witness.
proof fn lemma_mesh_square_unique(objs: Seq<Square>, g: MeshHandle, k: int)
    requires
        distinct_meshes(objs),
        0 <= k < objs.len(),
        objs[k].mesh == g,
    ensures
        mesh_index(objs, g) == k,
        mesh_square(objs, g) == objs[k],
{
    assert(has_mesh(objs, g));
    let k2 = mesh_index(objs, g);
    assert(0 <= k2 < objs.len() && objs[k2].mesh == g);
    if k2 != k {
        assert(false);
    }
}

/// Every handle among the tick's survivors was a square's handle already.
proof fn lemma_survivor_meshes_subset(objs: Seq<Square>, x: MeshHandle)
    ensures
        has_mesh(stepped_survivors(objs), x) ==> has_mesh(objs, x),
{
    let surv = stepped_survivors(objs);
    let stepped_all = objs.map_values(|s: Square| s.stepped());
    if has_mesh(surv, x) {
        let j = choose|j: int| 0 <= j < surv.len() && surv[j].mesh == x;
        lemma_filter_elem_of(stepped_all, |s: Square| s.time_left != 0, j);
        let k = choose|k: int| 0 <= k < stepped_all.len() && stepped_all[k] == surv[j];
        assert(stepped_all[k] == objs[k].stepped());
        assert(objs[k].mesh == x);
    }
}

/// How one tick of motion and countdown tracks a single handle: handles stay
/// distinct, the square with handle `g` survives exactly when it had at
/// least two ticks left, and if it survives it is its stepped self.
proof fn lemma_survivors_track(objs: Seq<Square>, g: MeshHandle)
    requires
        distinct_meshes(objs),
    ensures
        distinct_meshes(stepped_survivors(objs)),
        has_mesh(stepped_survivors(objs), g) == (has_mesh(objs, g) && mesh_square(
            objs,
            g,
        ).time_left >= 2),
        has_mesh(stepped_survivors(objs), g) ==> mesh_square(stepped_survivors(objs), g)
            == mesh_square(objs, g).stepped(),
    decreases objs.len(),
{
    reveal(Seq::filter);
    let alive = |s: Square| s.time_left != 0;
    let surv = stepped_survivors(objs);
    let stepped_all = objs.map_values(|s: Square| s.stepped());
    if objs.len() == 0 {
        assert(stepped_all.len() == 0);
        assert(surv.len() == 0);
    } else {
        let rest = objs.drop_last();
        let s_last = objs.last();
        let stepped_rest = rest.map_values(|s: Square| s.stepped());
        assert(stepped_all.drop_last() =~= stepped_rest);
        assert(stepped_all.last() == s_last.stepped());
        let surv_rest = stepped_survivors(rest);
        assert(forall|i: int, j: int| 0 <= i < j < rest.len() ==> rest[i].mesh != rest[j].mesh);
        lemma_survivors_track(rest, g);
        lemma_survivors_track(rest, s_last.mesh);
        // The last square's handle occurs nowhere earlier.
        assert(!has_mesh(rest, s_last.mesh)) by {
            if has_mesh(rest, s_last.mesh) {
                let k = choose|k: int| 0 <= k < rest.len() && rest[k].mesh == s_last.mesh;
                assert(objs[k].mesh == objs[objs.len() - 1].mesh);
                assert(false);
            }
        };
        if s_last.time_left >= 2 {
            assert(surv == surv_rest.push(s_last.stepped()));
            // Distinctness: the pushed handle is new among the survivors.
            assert(!has_mesh(surv_rest, s_last.mesh));
            assert forall|i: int, j: int| 0 <= i < j < surv.len() implies surv[i].mesh
                != surv[j].mesh by {
                if j < surv.len() - 1 {
                    assert(surv[i] == surv_rest[i] && surv[j] == surv_rest[j]);
                } else {
                    assert(surv[j] == s_last.stepped());
                    assert(surv[i] == surv_rest[i]);
                    assert(has_mesh(surv_rest, surv_rest[i].mesh));
                }
            };
            if g == s_last.mesh {
                lemma_mesh_square_unique(objs, g, objs.len() - 1);
                assert(surv[surv.len() - 1].mesh == g);
                assert(has_mesh(surv, g));
                lemma_mesh_square_unique(surv, g, surv.len() - 1);
            } else {
                assert(has_mesh(surv, g) == has_mesh(surv_rest, g)) by {
                    if has_mesh(surv, g) {
                        let j = choose|j: int| 0 <= j < surv.len() && surv[j].mesh == g;
                        assert(j < surv.len() - 1);
                        assert(surv_rest[j].mesh == g);
                    }
                    if has_mesh(surv_rest, g) {
                        let j = choose|j: int| 0 <= j < surv_rest.len() && surv_rest[j].mesh == g;
                        assert(surv[j].mesh == g);
                    }
                };
                assert(has_mesh(objs, g) == has_mesh(rest, g)) by {
                    if has_mesh(objs, g) {
                        let k = choose|k: int| 0 <= k < objs.len() && objs[k].mesh == g;
                        assert(k < objs.len() - 1);
                        assert(rest[k].mesh == g);
                    }
                    if has_mesh(rest, g) {
                        let k = choose|k: int| 0 <= k < rest.len() && rest[k].mesh == g;
                        assert(objs[k].mesh == g);
                    }
                };
                if has_mesh(rest, g) {
                    let k = choose|k: int| 0 <= k < rest.len() && rest[k].mesh == g;
                    lemma_mesh_square_unique(rest, g, k);
                    lemma_mesh_square_unique(objs, g, k);
                    if has_mesh(surv_rest, g) {
                        let j = choose|j: int| 0 <= j < surv_rest.len() && surv_rest[j].mesh == g;
                        lemma_mesh_square_unique(surv_rest, g, j);
                        lemma_mesh_square_unique(surv, g, j);
                    }
                }
            }
        } else {
            assert(alive(s_last.stepped()) == false);
            assert(surv == surv_rest);
            if g == s_last.mesh {
                lemma_mesh_square_unique(objs, g, objs.len() - 1);
                assert(!has_mesh(surv_rest, g));
            } else {
                assert(has_mesh(objs, g) == has_mesh(rest, g)) by {
                    if has_mesh(objs, g) {
                        let k = choose|k: int| 0 <= k < objs.len() && objs[k].mesh == g;
                        assert(k < objs.len() - 1);
                        assert(rest[k].mesh == g);
                    }
                    if has_mesh(rest, g) {
                        let k = choose|k: int| 0 <= k < rest.len() && rest[k].mesh == g;
                        assert(objs[k].mesh == g);
                    }
                };
                if has_mesh(rest, g) {
                    let k = choose|k: int| 0 <= k < rest.len() && rest[k].mesh == g;
                    lemma_mesh_square_unique(rest, g, k);
                    lemma_mesh_square_unique(objs, g, k);
                    if has_mesh(surv_rest, g) {
                        let j = choose|j: int| 0 <= j < surv_rest.len() && surv_rest[j].mesh == g;
                        lemma_mesh_square_unique(surv_rest, g, j);
                    }
                }
            }
        }
    }
}

/// A handle that no square holds never reappears, as long as no tick spawns
/// with it.
proof fn lemma_absent_stays_absent(
    objs: Seq<Square>,
    cooldown: u32,
    inputs: Seq<TickInput>,
    g: MeshHandle,
)
    requires
        !has_mesh(objs, g),
        forall|t: int| 0 <= t < inputs.len() ==> (#[trigger] inputs[t]).handle != g,
    ensures
        !has_mesh(run_squares(objs, cooldown, inputs), g),
    decreases inputs.len(),
{
    if inputs.len() == 0 {
    } else {
        let input = inputs.first();
        let objs2 = tick_squares(objs, cooldown, input);
        lemma_survivor_meshes_subset(objs, g);
        assert(!has_mesh(objs2, g)) by {
            if has_mesh(objs2, g) {
                let k = choose|k: int| 0 <= k < objs2.len() && objs2[k].mesh == g;
                let surv = stepped_survivors(objs);
                if k < surv.len() {
                    assert(has_mesh(surv, g));
                } else {
                    assert(objs2[k] == input.spawn.square_with(input.handle));
                    assert(inputs[0].handle == g);
                }
            }
        };
        assert forall|t: int| 0 <= t < inputs.drop_first().len() implies (#[trigger] inputs.drop_first()[t]).handle != g by {
            assert(inputs.drop_first()[t] == inputs[t + 1]);
        };
        lemma_absent_stays_absent(objs2, tick_cooldown(cooldown), inputs.drop_first(), g);
    }
}

/// The lifetime law: a square alive with `time_left == T` stays in the
/// simulation for exactly `T` more ticks. After `k < T` ticks it is still
/// there, with `T - k` ticks left and stepped `k` times over; the tick that
/// sees its lifetime reach zero removes it, and it never returns. The
/// handles offered to the ticks are assumed fresh and pairwise distinct,
/// which is what the registry's generation discipline hands every caller
/// (`add_mesh` returns a handle that was never issued before).
pub proof fn lemma_entity_lifetime(
    objs: Seq<Square>,
    cooldown: u32,
    inputs: Seq<TickInput>,
    g: MeshHandle,
)
    requires
        distinct_meshes(objs),
        has_mesh(objs, g),
        mesh_square(objs, g).time_left >= 1,
        forall|t: int| 0 <= t < inputs.len() ==> !has_mesh(objs, (#[trigger] inputs[t]).handle),
        forall|t1: int, t2: int|
            0 <= t1 < t2 < inputs.len() ==> inputs[t1].handle != inputs[t2].handle,
    ensures
        inputs.len() < mesh_square(objs, g).time_left ==> has_mesh(
            run_squares(objs, cooldown, inputs),
            g,
        ) && mesh_square(run_squares(objs, cooldown, inputs), g).time_left == mesh_square(
            objs,
            g,
        ).time_left - inputs.len(),
        inputs.len() >= mesh_square(objs, g).time_left ==> !has_mesh(
            run_squares(objs, cooldown, inputs),
            g,
        ),
    decreases inputs.len(),
{
    if inputs.len() == 0 {
    } else {
        let input = inputs.first();
        let t_left = mesh_square(objs, g).time_left;
        let surv = stepped_survivors(objs);
        let objs2 = tick_squares(objs, cooldown, input);
        let spawns = cooldown == 1 && objs.len() < MAX_SQUARES;
        lemma_survivors_track(objs, g);
        // The offered handle is no square's handle, so the spawned square
        // cannot collide with a survivor.
        assert(input.handle != g);
        assert(distinct_meshes(objs2)) by {
            if spawns {
                assert forall|i: int, j: int| 0 <= i < j < objs2.len() implies objs2[i].mesh
                    != objs2[j].mesh by {
                    if j == objs2.len() - 1 {
                        assert(objs2[j] == input.spawn.square_with(input.handle));
                        assert(objs2[i] == surv[i]);
                        lemma_survivor_meshes_subset(objs, surv[i].mesh);
                        assert(has_mesh(surv, surv[i].mesh));
                    } else {
                        assert(objs2[i] == surv[i] && objs2[j] == surv[j]);
                    }
                };
            }
        };
        // Where the tracked square stands after this tick.
        if t_left >= 2 {
            assert(has_mesh(surv, g));
            let j = mesh_index(surv, g);
            assert(surv[j] == mesh_square(objs, g).stepped());
            assert(objs2[j] == surv[j]);
            lemma_mesh_square_unique(objs2, g, j);
            assert(mesh_square(objs2, g).time_left == t_left - 1);
            // The remaining inputs stay fresh for the new state.
            assert forall|t: int|
                0 <= t < inputs.drop_first().len() implies !has_mesh(
                objs2,
                (#[trigger] inputs.drop_first()[t]).handle,
            ) by {
                assert(inputs.drop_first()[t] == inputs[t + 1]);
                let x = inputs[t + 1].handle;
                if has_mesh(objs2, x) {
                    let k = choose|k: int| 0 <= k < objs2.len() && objs2[k].mesh == x;
                    if spawns && k == objs2.len() - 1 {
                        assert(objs2[k] == input.spawn.square_with(input.handle));
                        assert(inputs[0].handle == inputs[t + 1].handle);
                        assert(false);
                    } else {
                        assert(objs2[k] == surv[k]);
                        lemma_survivor_meshes_subset(objs, x);
                        assert(false);
                    }
                }
            };
            assert forall|t1: int, t2: int|
                0 <= t1 < t2 < inputs.drop_first().len() implies inputs.drop_first()[t1].handle
                != inputs.drop_first()[t2].handle by {
                assert(inputs.drop_first()[t1] == inputs[t1 + 1]);
                assert(inputs.drop_first()[t2] == inputs[t2 + 1]);
            };
            lemma_entity_lifetime(objs2, tick_cooldown(cooldown), inputs.drop_first(), g);
        } else {
            // Its last tick: the square steps to zero lifetime and drops.
            assert(!has_mesh(surv, g));
            assert(!has_mesh(objs2, g)) by {
                if has_mesh(objs2, g) {
                    let k = choose|k: int| 0 <= k < objs2.len() && objs2[k].mesh == g;
                    if spawns && k == objs2.len() - 1 {
                        assert(objs2[k] == input.spawn.square_with(input.handle));
                        assert(false);
                    } else {
                        assert(objs2[k] == surv[k]);
                        assert(false);
                    }
                }
            };
            assert forall|t: int|
                0 <= t < inputs.drop_first().len() implies (#[trigger] inputs.drop_first()[t]).handle != g by {
                assert(inputs.drop_first()[t] == inputs[t + 1]);
            };
            lemma_absent_stays_absent(objs2, tick_cooldown(cooldown), inputs.drop_first(), g);
        }
    }
}

/// One tick keeps the population within the cap.
proof fn lemma_tick_respects_cap(objs: Seq<Square>, cooldown: u32, input: TickInput)
    requires
        objs.len() <= MAX_SQUARES,
    ensures
        tick_squares(objs, cooldown, input).len() <= MAX_SQUARES,
{
    let stepped_all = objs.map_values(|s: Square| s.stepped());
    stepped_all.lemma_filter_len(|s: Square| s.time_left != 0);
}

/// The population cap: starting within the cap, no run of ticks ever takes
/// the simulation above `MAX_SQUARES` concurrently live squares.
pub proof fn lemma_population_cap(objs: Seq<Square>, cooldown: u32, inputs: Seq<TickInput>)
    requires
        objs.len() <= MAX_SQUARES,
    ensures
        run_squares(objs, cooldown, inputs).len() <= MAX_SQUARES,
    decreases inputs.len(),
{
    if inputs.len() == 0 {
    } else {
        lemma_tick_respects_cap(objs, cooldown, inputs.first());
        lemma_population_cap(
            tick_squares(objs, cooldown, inputs.first()),
            tick_cooldown(cooldown),
            inputs.drop_first(),
        );
    }
}

/// A pluggable simulation: something that can be created and ticked against
/// the mesh registry.
pub trait Application: Sized {
    /// The invariant the application maintains between itself and the
    /// registry it registers transforms with.
    spec fn inv(&self, renderer: &Renderer) -> bool;

    fn new() -> (app: Self)
        ensures
            forall|r: Renderer| r.is_fresh() ==> app.inv(&r),
    ;

    fn update(&mut self, renderer: &mut Renderer, spawn: &SpawnParams) -> (spawned: Option<
        MeshHandle,
    >)
        requires
            old(self).inv(old(renderer)),
            spawn.time_left >= 1,
        ensures
            final(self).inv(final(renderer)),
    ;
}

impl Application for MyApp {
    open spec fn inv(&self, renderer: &Renderer) -> bool {
        self.wf() && renderer.wf() && self.registered(renderer)
    }

    fn new() -> (app: Self) {
        MyApp::new()
    }

    fn update(&mut self, renderer: &mut Renderer, spawn: &SpawnParams) -> (spawned: Option<
        MeshHandle,
    >) {
        MyApp::update(self, renderer, spawn)
    }
}

} // verus!
