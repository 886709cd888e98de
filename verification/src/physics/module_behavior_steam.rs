//! Steam behavior module: steam cells either fade back to air (with a
//! configured chance) or drift by swapping into a random adjacent air
//! cell, carrying their staged temperature with them.

use vstd::prelude::*;

verus! {

use crate::FIXED_ONE;
use crate::config::{ConfigBag, ConfigError, config_lookup};
use crate::material::MaterialId;
use crate::physics::intent::{Cell, CellIntent, ModuleOutput, intent_mats_valid, intent_wf};
use crate::physics::module_diffusion_thermal::gidx;
use crate::physics::util::{
    dir_permutation_spec, pick_scan_dir, random_dir_permutation, scan_cell, scan_cell_spec,
};
use crate::rng::{SimRng, rng_out, rng_step};
use crate::world::CurrCtx;
use vstd::string::StringExecFns;

/// The two distinct cells touch (8-neighborhood).
pub open spec fn adjacent_8(a: Cell, b: Cell) -> bool {
    &&& a != b
    &&& -1 <= a.x - b.x <= 1
    &&& -1 <= a.y - b.y <= 1
}

/// An intent this module may emit: a steam cell fading to air, or a
/// steam cell swapping with an adjacent air cell.
pub open spec fn steam_intent_sound(
    mats: Seq<MaterialId>,
    w: int,
    steam: MaterialId,
    air: MaterialId,
    it: CellIntent,
) -> bool {
    match it {
        CellIntent::Transform { cell, out } => {
            &&& out == air
            &&& 0 <= cell.y * w + cell.x < mats.len()
            &&& mats[cell.y * w + cell.x] == steam
        },
        CellIntent::MoveSwap { from, to } => {
            &&& adjacent_8(from, to)
            &&& 0 <= from.y * w + from.x < mats.len()
            &&& 0 <= to.y * w + to.x < mats.len()
            &&& mats[from.y * w + from.x] == steam
            &&& mats[to.y * w + to.x] == air
        },
        CellIntent::Reaction { .. } => false,
    }
}

/// The first in-bounds air neighbor of `(x, y)` among `dirs` from
/// position `j` onward, as a swap intent.
pub open spec fn first_air_move_spec(
    mats: Seq<MaterialId>,
    w: int,
    h: int,
    x: int,
    y: int,
    air: MaterialId,
    dirs: Seq<(isize, isize)>,
    j: int,
) -> Option<CellIntent>
    decreases dirs.len() - j,
{
    if j < 0 || j >= dirs.len() {
        None
    } else {
        let nx = x + dirs[j].0 as int;
        let ny = y + dirs[j].1 as int;
        if 0 <= nx && nx < w && 0 <= ny && ny < h && mats[gidx(w, nx, ny)] == air {
            Some(
                CellIntent::MoveSwap {
                    from: Cell { x: x as usize, y: y as usize },
                    to: Cell { x: nx as usize, y: ny as usize },
                },
            )
        } else {
            first_air_move_spec(mats, w, h, x, y, air, dirs, j + 1)
        }
    }
}

/// One cell's decision, threading the roll stream: a non-steam cell
/// draws nothing; a steam cell rolls once and either fades to air or
/// draws a direction permutation and swaps with its first in-bounds air
/// neighbor (no intent when there is none).
pub open spec fn steam_cell_spec(
    mats: Seq<MaterialId>,
    w: int,
    h: int,
    x: int,
    y: int,
    steam: MaterialId,
    air: MaterialId,
    fade: u32,
    rng: SimRng,
) -> (Option<CellIntent>, SimRng) {
    if mats[gidx(w, x, y)] != steam {
        (None, rng)
    } else {
        let roll = rng_out(rng) % (FIXED_ONE as u64);
        let rng1 = rng_step(rng);
        if roll < fade as u64 {
            (
                Some(CellIntent::Transform { cell: Cell { x: x as usize, y: y as usize }, out: air }),
                rng1,
            )
        } else {
            let pd = dir_permutation_spec(false, rng1);
            (first_air_move_spec(mats, w, h, x, y, air, pd.0, 0), pd.1)
        }
    }
}

/// The whole tick from scan position `k` onward: the emitted intents in
/// scan order (at most one per steam cell) and the roll stream
/// afterwards.
pub open spec fn steam_scan_spec(
    mats: Seq<MaterialId>,
    w: int,
    h: int,
    dir: int,
    steam: MaterialId,
    air: MaterialId,
    fade: u32,
    k: int,
    rng: SimRng,
) -> (Seq<CellIntent>, SimRng)
    decreases w * h - k,
{
    if k < 0 || k >= w * h || w <= 0 || h <= 0 {
        (Seq::empty(), rng)
    } else {
        let c = scan_cell_spec(dir, w, h, k);
        let sc = steam_cell_spec(mats, w, h, c.x as int, c.y as int, steam, air, fade, rng);
        let rest = steam_scan_spec(mats, w, h, dir, steam, air, fade, k + 1, sc.1);
        match sc.0 {
            Some(it) => (seq![it] + rest.0, rest.1),
            None => rest,
        }
    }
}

/// The steam behavior module: resolved material ids, the configured fade
/// chance, and two private streams.
pub struct ModuleBehaviorSteam {
    pub mat_id_steam: MaterialId,
    pub mat_id_air: MaterialId,
    pub fade_chance: u32,
    pub rng_a: SimRng,
    pub rng_b: SimRng,
}

impl ModuleBehaviorSteam {
    /// The resolved ids exist and are distinct.
    pub open spec fn ids_wf(&self, count: nat) -> bool {
        &&& self.mat_id_steam.0 < count
        &&& self.mat_id_air.0 < count
        &&& self.mat_id_steam != self.mat_id_air
    }

    /// A fresh module with its streams seeded and the steam and air
    /// materials resolved by name; `None` exactly when either name is
    /// not loaded.
    pub fn new(curr: &CurrCtx<'_>, rng_seed: u64) -> (r: Option<Self>)
        requires
            curr.wf(),
        ensures
            r is Some <==> crate::material::first_index_of(curr.mat_db@, "base:steam"@) is Some
                && crate::material::first_index_of(curr.mat_db@, "base:air"@) is Some,
            match r {
                Some(m) => {
                    &&& m.ids_wf(curr.mat_db@.len())
                    &&& m.fade_chance == 0
                    &&& m.rng_a == crate::rng::seed_spec(rng_seed)
                    &&& m.rng_b == crate::rng::seed_spec(rng_seed ^ 0xBBBBBBBBBBBBBBBB)
                    &&& match crate::material::first_index_of(curr.mat_db@, "base:steam"@) {
                        Some(i) => m.mat_id_steam == crate::material::MaterialId(i as u16),
                        None => false,
                    }
                    &&& match crate::material::first_index_of(curr.mat_db@, "base:air"@) {
                        Some(i) => m.mat_id_air == crate::material::MaterialId(i as u16),
                        None => false,
                    }
                },
                None => true,
            },
    {
        let steam_name: String = String::from_str("base:steam");
        let air_name: String = String::from_str("base:air");
        let steam = match curr.mat_db.get_id(&steam_name) {
            Some(id) => id,
            None => {
                return None;
            },
        };
        let air = match curr.mat_db.get_id(&air_name) {
            Some(id) => id,
            None => {
                return None;
            },
        };
        proof {
            crate::material::lemma_first_index_of(curr.mat_db@, steam_name@);
            crate::material::lemma_first_index_of(curr.mat_db@, air_name@);
            reveal_strlit("base:steam");
            reveal_strlit("base:air");
            assert(steam_name@.len() != air_name@.len());
            assert(steam_name@ != air_name@);
        }
        if steam.0 == air.0 {
            // Unreachable: the registry's names are pairwise distinct, so
            // two different names cannot share a first index.
            proof {
                let is_ = crate::material::first_index_of(curr.mat_db@, steam_name@)->Some_0;
                let ia_ = crate::material::first_index_of(curr.mat_db@, air_name@)->Some_0;
                assert(curr.mat_db@[is_].name == steam_name@);
                assert(curr.mat_db@[ia_].name == air_name@);
                assert(is_ != ia_);
                assert(steam.0 == is_ as u16 && air.0 == ia_ as u16);
                assert(false);
            }
            return None;
        }
        Some(
            Self {
                mat_id_steam: steam,
                mat_id_air: air,
                fade_chance: 0,
                rng_a: SimRng::seed_from_u64(rng_seed),
                rng_b: SimRng::seed_from_u64(rng_seed ^ 0xBBBBBBBBBBBBBBBB),
            },
        )
    }

    /// Read the required fade chance from the configuration, clamped to
    /// `[0, FIXED_ONE]`; a missing key fails loudly.
    pub fn apply_config(&mut self, config: &ConfigBag) -> (r: Result<(), ConfigError>)
        ensures
            final(self).mat_id_steam == old(self).mat_id_steam,
            final(self).mat_id_air == old(self).mat_id_air,
            final(self).rng_a == old(self).rng_a,
            final(self).rng_b == old(self).rng_b,
            r is Ok <==> config_lookup(config@, "steam_fade_chance"@) is Some,
            match config_lookup(config@, "steam_fade_chance"@) {
                Some(v) => final(self).fade_chance == (if v < 0 {
                    0u32
                } else if v > FIXED_ONE as i64 {
                    FIXED_ONE
                } else {
                    v as u32
                }),
                None => final(self).fade_chance == old(self).fade_chance,
            },
    {
        let key: String = String::from_str("steam_fade_chance");
        match config.get(&key) {
            Some(v) => {
                self.fade_chance = if v < 0 {
                    0
                } else if v > FIXED_ONE as i64 {
                    FIXED_ONE
                } else {
                    v as u32
                };
                Ok(())
            },
            None => Err(ConfigError::MissingKey { key }),
        }
    }

    /// One tick: every steam cell either fades to air (rate roll against
    /// the fade chance) or tries the eight directions in a random order
    /// and swaps into the first in-bounds air neighbor. The whole output
    /// and the final roll stream are exact functions of the committed
    /// frame and the two stream states.
    pub fn run(&mut self, curr: &CurrCtx<'_>) -> (out: ModuleOutput)
        requires
            curr.wf(),
            curr.w > 0,
            curr.h > 0,
            self.ids_wf(curr.mat_db@.len()),
        ensures
            final(self).rng_a == rng_step(old(self).rng_a),
            final(self).mat_id_steam == old(self).mat_id_steam,
            final(self).mat_id_air == old(self).mat_id_air,
            final(self).fade_chance == old(self).fade_chance,
            final(self).rng_b == steam_scan_spec(
                curr.cell_mat_ids@,
                curr.w as int,
                curr.h as int,
                (rng_out(old(self).rng_a) % 4) as int,
                old(self).mat_id_steam,
                old(self).mat_id_air,
                old(self).fade_chance,
                0,
                old(self).rng_b,
            ).1,
            out matches ModuleOutput::CellIntents { intents } && intents@ == steam_scan_spec(
                curr.cell_mat_ids@,
                curr.w as int,
                curr.h as int,
                (rng_out(old(self).rng_a) % 4) as int,
                old(self).mat_id_steam,
                old(self).mat_id_air,
                old(self).fade_chance,
                0,
                old(self).rng_b,
            ).0,
            out matches ModuleOutput::CellIntents { intents } && forall|i: int|
                0 <= i < intents@.len() ==> {
                    let it = #[trigger] intents@[i];
                    &&& steam_intent_sound(
                        curr.cell_mat_ids@,
                        curr.w as int,
                        old(self).mat_id_steam,
                        old(self).mat_id_air,
                        it,
                    )
                    &&& intent_wf(it, curr.w as int, curr.h as int)
                    &&& intent_mats_valid(it, curr.mat_db@.len())
                },
            crate::physics::intent::output_wf(
                out,
                curr.w as int,
                curr.h as int,
                curr.mat_db@.len(),
            ),
    {
        let ghost gmats = curr.cell_mat_ids@;
        let w = curr.w;
        let h = curr.h;
        let steam = self.mat_id_steam;
        let air = self.mat_id_air;
        let fade = self.fade_chance;
        let dir = pick_scan_dir(&mut self.rng_a);
        let ghost rng_b0 = self.rng_b;
        let ghost full = steam_scan_spec(
            gmats,
            w as int,
            h as int,
            dir as int,
            steam,
            air,
            fade,
            0,
            rng_b0,
        );
        let mut intents: Vec<CellIntent> = Vec::new();
        let n = w * h;
        for k in 0..n
            invariant
                n == w * h,
                w == curr.w,
                h == curr.h,
                curr.wf(),
                w > 0,
                h > 0,
                dir < 4,
                gmats == curr.cell_mat_ids@,
                steam == old(self).mat_id_steam,
                air == old(self).mat_id_air,
                fade == old(self).fade_chance,
                steam.0 < curr.mat_db@.len(),
                air.0 < curr.mat_db@.len(),
                steam != air,
                self.rng_a == rng_step(old(self).rng_a),
                self.mat_id_steam == old(self).mat_id_steam,
                self.mat_id_air == old(self).mat_id_air,
                self.fade_chance == old(self).fade_chance,
                full == steam_scan_spec(
                    gmats,
                    w as int,
                    h as int,
                    dir as int,
                    steam,
                    air,
                    fade,
                    0,
                    rng_b0,
                ),
                full.0 == intents@ + steam_scan_spec(
                    gmats,
                    w as int,
                    h as int,
                    dir as int,
                    steam,
                    air,
                    fade,
                    k as int,
                    self.rng_b,
                ).0,
                full.1 == steam_scan_spec(
                    gmats,
                    w as int,
                    h as int,
                    dir as int,
                    steam,
                    air,
                    fade,
                    k as int,
                    self.rng_b,
                ).1,
                forall|i: int|
                    0 <= i < intents@.len() ==> {
                        let it = #[trigger] intents@[i];
                        &&& steam_intent_sound(gmats, w as int, steam, air, it)
                        &&& intent_wf(it, w as int, h as int)
                        &&& intent_mats_valid(it, curr.mat_db@.len())
                    },
        {
            let c = scan_cell(dir, w, h, k);
            let x = c.x;
            let y = c.y;
            proof {
                crate::world::lemma_grid_index(w as int, h as int, x as int, y as int);
            }
            let ghost rng_c = self.rng_b;
            let ghost pre_intents = intents@;
            let a = curr.get_mat_id(x, y);
            if a.0 == steam.0 {
                proof {
                    assert(a == steam);
                }
                // Chance to fade back to air.
                let roll = self.rng_b.next_below(FIXED_ONE as u64);
                if roll < self.fade_chance as u64 {
                    let it = CellIntent::Transform { cell: c, out: air };
                    proof {
                        assert(steam_intent_sound(gmats, w as int, steam, air, it));
                        assert(steam_cell_spec(
                            gmats,
                            w as int,
                            h as int,
                            x as int,
                            y as int,
                            steam,
                            air,
                            fade,
                            rng_c,
                        ) == (Some(it), self.rng_b));
                    }
                    intents.push(it);
                } else {
                    // Try the eight directions in a random order and
                    // swap with the first in-bounds air neighbor.
                    let dirs = random_dir_permutation(&mut self.rng_b, false);
                    let ghost pd0 = dirs@;
                    let mut moved = false;
                    let dn = dirs.len();
                    for j in 0..dn
                        invariant
                            dn == dirs@.len(),
                            pd0 == dirs@,
                            n == w * h,
                            w == curr.w,
                            h == curr.h,
                            curr.wf(),
                            w > 0,
                            h > 0,
                            x < w,
                            y < h,
                            c.x == x,
                            c.y == y,
                            gmats == curr.cell_mat_ids@,
                            gmats[y * w + x] == steam,
                            steam == old(self).mat_id_steam,
                            air == old(self).mat_id_air,
                            fade == old(self).fade_chance,
                            steam.0 < curr.mat_db@.len(),
                            air.0 < curr.mat_db@.len(),
                            steam != air,
                            self.rng_a == rng_step(old(self).rng_a),
                            self.mat_id_steam == old(self).mat_id_steam,
                            self.mat_id_air == old(self).mat_id_air,
                            self.fade_chance == old(self).fade_chance,
                            self.rng_b == steam_cell_spec(
                                gmats,
                                w as int,
                                h as int,
                                x as int,
                                y as int,
                                steam,
                                air,
                                fade,
                                rng_c,
                            ).1,
                            forall|jj: int|
                                0 <= jj < dirs@.len() ==> -1 <= (#[trigger] dirs@[jj]).0 <= 1 && -1
                                    <= dirs@[jj].1 <= 1 && !(dirs@[jj].0 == 0 && dirs@[jj].1 == 0),
                            if moved {
                                &&& intents@ == pre_intents.push(intents@.last())
                                &&& first_air_move_spec(
                                    gmats,
                                    w as int,
                                    h as int,
                                    x as int,
                                    y as int,
                                    air,
                                    pd0,
                                    0,
                                ) == Some(intents@.last())
                            } else {
                                &&& intents@ == pre_intents
                                &&& first_air_move_spec(
                                    gmats,
                                    w as int,
                                    h as int,
                                    x as int,
                                    y as int,
                                    air,
                                    pd0,
                                    0,
                                ) == first_air_move_spec(
                                    gmats,
                                    w as int,
                                    h as int,
                                    x as int,
                                    y as int,
                                    air,
                                    pd0,
                                    j as int,
                                )
                            },
                            forall|i: int|
                                0 <= i < intents@.len() ==> {
                                    let it = #[trigger] intents@[i];
                                    &&& steam_intent_sound(gmats, w as int, steam, air, it)
                                    &&& intent_wf(it, w as int, h as int)
                                    &&& intent_mats_valid(it, curr.mat_db@.len())
                                },
                    {
                        if !moved {
                            let (dx, dy) = dirs[j];
                            proof {
                                assert(w <= w * h && h <= w * h) by (nonlinear_arith)
                                    requires
                                        w >= 1,
                                        h >= 1,
                                ;
                            }
                            let nx = x as isize + dx;
                            let ny = y as isize + dy;
                            if curr.contains(nx, ny) {
                                let nxu = nx as usize;
                                let nyu = ny as usize;
                                let b = curr.get_mat_id(nxu, nyu);
                                if b.0 == air.0 {
                                    let to = Cell { x: nxu, y: nyu };
                                    let it = CellIntent::MoveSwap { from: c, to };
                                    proof {
                                        crate::world::lemma_grid_index(
                                            w as int,
                                            h as int,
                                            nxu as int,
                                            nyu as int,
                                        );
                                        crate::world::lemma_grid_index(
                                            w as int,
                                            h as int,
                                            x as int,
                                            y as int,
                                        );
                                        assert(b == air);
                                        assert(nxu as int == x as int + dx as int);
                                        assert(nyu as int == y as int + dy as int);
                                        assert(!(dx == 0 && dy == 0));
                                        assert(c != to);
                                        assert(gmats[(nyu * w + nxu) as int] == air);
                                        assert(adjacent_8(c, to));
                                        assert(steam_intent_sound(gmats, w as int, steam, air, it));
                                        assert(first_air_move_spec(
                                            gmats,
                                            w as int,
                                            h as int,
                                            x as int,
                                            y as int,
                                            air,
                                            pd0,
                                            j as int,
                                        ) == Some(it));
                                    }
                                    intents.push(it);
                                    moved = true;
                                }
                            } else {
                                proof {
                                    assert(first_air_move_spec(
                                        gmats,
                                        w as int,
                                        h as int,
                                        x as int,
                                        y as int,
                                        air,
                                        pd0,
                                        j as int,
                                    ) == first_air_move_spec(
                                        gmats,
                                        w as int,
                                        h as int,
                                        x as int,
                                        y as int,
                                        air,
                                        pd0,
                                        j + 1,
                                    ));
                                }
                            }
                        }
                    }
                    proof {
                        assert(steam_cell_spec(
                            gmats,
                            w as int,
                            h as int,
                            x as int,
                            y as int,
                            steam,
                            air,
                            fade,
                            rng_c,
                        ).0 == if moved {
                            Some(intents@.last())
                        } else {
                            None::<CellIntent>
                        });
                    }
                }
            } else {
                proof {
                    assert(gmats[gidx(w as int, x as int, y as int)] != steam);
                    assert(steam_cell_spec(
                        gmats,
                        w as int,
                        h as int,
                        x as int,
                        y as int,
                        steam,
                        air,
                        fade,
                        rng_c,
                    ) == (None::<CellIntent>, self.rng_b));
                }
            }
            proof {
                if intents@.len() > pre_intents.len() {
                    assert(intents@ + steam_scan_spec(
                        gmats,
                        w as int,
                        h as int,
                        dir as int,
                        steam,
                        air,
                        fade,
                        k + 1,
                        self.rng_b,
                    ).0 =~= pre_intents + (seq![intents@.last()] + steam_scan_spec(
                        gmats,
                        w as int,
                        h as int,
                        dir as int,
                        steam,
                        air,
                        fade,
                        k + 1,
                        self.rng_b,
                    ).0));
                }
            }
        }
        proof {
            assert(steam_scan_spec(
                gmats,
                w as int,
                h as int,
                dir as int,
                steam,
                air,
                fade,
                n as int,
                self.rng_b,
            ).0 =~= Seq::<CellIntent>::empty());
            assert(full.0 =~= intents@);
        }
        ModuleOutput::CellIntents { intents }
    }
}

/// In a world with no steam cells, no steam intent is sound, so the
/// module emits nothing.
pub proof fn lemma_steam_quiet_without_steam(
    mats: Seq<MaterialId>,
    w: int,
    steam: MaterialId,
    air: MaterialId,
    m: MaterialId,
    it: CellIntent,
)
    requires
        forall|i: int| 0 <= i < mats.len() ==> #[trigger] mats[i] == m,
        m != steam,
    ensures
        !steam_intent_sound(mats, w, steam, air, it),
{
}

} // verus!
