//! Colors of room members, and the generator that keeps them apart.
//!
//! Whether a candidate color is far enough from the others is decided in a
//! perceptual color space with floating-point arithmetic, which callers
//! supply as a probe: for a position of the generator's quasirandom walk the
//! probe answers the color at that position if it is distinct enough, and
//! `None` if it clashes. The bookkeeping around the probe is done here.

use vstd::prelude::*;

use crate::srgb::Srgb8;

verus! {

/// How many positions of the walk [`DistinctColors::next`] probes before giving up.
pub const MAX_DISTINCT_TRIES: usize = 1024;

/// The color given when no distinct color can be drawn: `#808080`.
pub fn fallback_color() -> (c: Srgb8)
    ensures
        c == (Srgb8 { r: 0x80, g: 0x80, b: 0x80 }),
{
    Srgb8 { r: 0x80, g: 0x80, b: 0x80 }
}

/// A color assigned to a member of a room.
#[derive(Debug, Clone, Copy, PartialEq, Eq, Structural)]
pub struct PlayerColor {
    pub srgb: Srgb8,
    /// `true` if the client picked it, `false` if it was drawn by a
    /// [`DistinctColors`].
    pub custom: bool,
}

impl PlayerColor {
    pub fn custom(srgb: Srgb8) -> (c: Self)
        ensures
            c == (PlayerColor { srgb, custom: true }),
    {
        Self { srgb, custom: true }
    }

    pub fn distinct(srgb: Srgb8) -> (c: Self)
        ensures
            c == (PlayerColor { srgb, custom: false }),
    {
        Self { srgb, custom: false }
    }
}

/// The state of a [`DistinctColors`].
pub ghost struct ColorsView {
    /// Start of the quasirandom walk: bit patterns of three `f64` in `[0, 1)`.
    pub seed: [u64; 3],
    /// The next position of the walk to probe.
    pub next_index: nat,
    /// Colors in use, which later draws must stay away from.
    pub occupied: Seq<Srgb8>,
}

/// Generates colors that are perceptually distinct from one another and from
/// the colors registered as occupied.
pub struct DistinctColors {
    seed: [u64; 3],
    next_index: usize,
    occupied: Vec<Srgb8>,
}

impl View for DistinctColors {
    type V = ColorsView;

    closed spec fn view(&self) -> ColorsView {
        ColorsView { seed: self.seed, next_index: self.next_index as nat, occupied: self.occupied@ }
    }
}

/// The probe may answer that the position `idx` clashes.
pub open spec fn rejected<F: Fn(usize) -> Option<Srgb8>>(probe: F, idx: int) -> bool {
    call_ensures(probe, (idx as usize,), None::<Srgb8>)
}

/// What a draw does: it probes successive positions from `old.next_index`,
/// passing over those the probe rejects, and takes the first color the probe
/// offers, which becomes occupied; after [`MAX_DISTINCT_TRIES`] rejections it
/// gives `None`.
pub open spec fn drawn<F: Fn(usize) -> Option<Srgb8>>(
    old: ColorsView,
    new: ColorsView,
    probe: F,
    r: Option<PlayerColor>,
) -> bool {
    &&& new.seed == old.seed
    &&& match r {
        Some(c) => {
            let k = new.next_index - old.next_index - 1;
            &&& 0 <= k < MAX_DISTINCT_TRIES
            &&& !c.custom
            &&& call_ensures(probe, ((old.next_index + k) as usize,), Some(c.srgb))
            &&& forall|j: int| 0 <= j < k ==> #[trigger] rejected(probe, old.next_index + j)
            &&& new.occupied == old.occupied.push(c.srgb)
        },
        None => {
            &&& new.next_index == old.next_index + MAX_DISTINCT_TRIES
            &&& forall|j: int|
                0 <= j < MAX_DISTINCT_TRIES ==> #[trigger] rejected(probe, old.next_index + j)
            &&& new.occupied == old.occupied
        },
    }
}

/// The color that [`DistinctColors::assign`] gives and the state it leaves.
pub open spec fn assigned<F: Fn(usize) -> Option<Srgb8>>(
    old: ColorsView,
    new: ColorsView,
    color_override: Option<Srgb8>,
    probe: F,
    c: PlayerColor,
) -> bool {
    match color_override {
        Some(s) => c == PlayerColor { srgb: s, custom: true } && new == ColorsView {
            occupied: old.occupied.push(s),
            ..old
        },
        None => drawn(old, new, probe, Some(c)) || (drawn(old, new, probe, None) && c
            == PlayerColor { srgb: Srgb8 { r: 0x80, g: 0x80, b: 0x80 }, custom: false }),
    }
}

/// The first position at which `c` occurs.
fn first_position(v: &Vec<Srgb8>, c: Srgb8) -> (r: Option<usize>)
    ensures
        r == (match v@.index_of_first(c) {
            Some(i) => Some(i as usize),
            None => None::<usize>,
        }),
{
    proof {
        v@.index_of_first_ensures(c);
    }
    let mut i: usize = 0;
    while i < v.len()
        invariant
            0 <= i <= v@.len(),
            forall|j: int| 0 <= j < i ==> v@[j] != c,
            match v@.index_of_first(c) {
                Some(f) => v@.contains(c) && 0 <= f < v@.len() && v@[f] == c && forall|j: int|
                    0 <= j < f ==> v@[j] != c,
                None => !v@.contains(c),
            },
        decreases v@.len() - i,
    {
        if v[i] == c {
            proof {
                assert(v@.contains(c));
                let f = v@.index_of_first(c).unwrap();
                if f < i {
                    assert(v@[f] != c);
                }
                if f > i {
                    assert(v@[i as int] != c);
                }
            }
            return Some(i);
        }
        i = i + 1;
    }
    proof {
        if v@.contains(c) {
            let k = choose|k: int| 0 <= k < v@.len() && v@[k] == c;
            assert(v@[k] != c);
        }
    }
    None
}

impl DistinctColors {
    /// A generator whose walk starts at `seed`, with no color occupied.
    pub fn new(seed: [u64; 3]) -> (c: Self)
        ensures
            c@ == (ColorsView { seed, next_index: 0, occupied: Seq::empty() }),
    {
        Self { seed, next_index: 0, occupied: Vec::new() }
    }

    pub fn seed(&self) -> (s: [u64; 3])
        ensures
            s == self@.seed,
    {
        self.seed
    }

    pub fn next_index(&self) -> (n: usize)
        ensures
            n == self@.next_index,
    {
        self.next_index
    }

    pub fn occupied(&self) -> (v: &Vec<Srgb8>)
        ensures
            v@ == self@.occupied,
    {
        &self.occupied
    }

    /// Register a color as occupied so future draws avoid it.
    pub fn push_occupied(&mut self, srgb: Srgb8)
        ensures
            final(self)@ == (ColorsView { occupied: old(self)@.occupied.push(srgb), ..old(self)@ }),
    {
        self.occupied.push(srgb);
    }

    /// Free one occurrence (the first) of a previously-occupied color.
    pub fn remove_occupied(&mut self, srgb: Srgb8)
        ensures
            final(self)@ == (ColorsView {
                occupied: old(self)@.occupied.remove_value(srgb),
                ..old(self)@
            }),
    {
        let ghost start = self@;
        proof {
            start.occupied.index_of_first_ensures(srgb);
        }
        let pos = first_position(&self.occupied, srgb);
        match pos {
            Some(i) => {
                self.occupied.remove(i);
                assert(self@.occupied =~= start.occupied.remove_value(srgb));
            },
            None => {},
        }
    }

    /// Draw a color distinct from the occupied ones and make it occupied.
    pub fn next<F: Fn(usize) -> Option<Srgb8>>(&mut self, probe: F) -> (r: Option<PlayerColor>)
        requires
            forall|i: usize| #[trigger] call_requires(probe, (i,)),
            old(self)@.next_index + MAX_DISTINCT_TRIES <= usize::MAX,
        ensures
            drawn(old(self)@, final(self)@, probe, r),
    {
        let start_index = self.next_index;
        let mut t: usize = 0;
        let mut found: Option<Srgb8> = None;
        while t < MAX_DISTINCT_TRIES
            invariant_except_break
                found is None,
            invariant
                forall|i: usize| #[trigger] call_requires(probe, (i,)),
                start_index + MAX_DISTINCT_TRIES <= usize::MAX,
                0 <= t <= MAX_DISTINCT_TRIES,
                forall|j: int| 0 <= j < t ==> #[trigger] rejected(probe, start_index + j),
            ensures
                0 <= t <= MAX_DISTINCT_TRIES,
                forall|j: int| 0 <= j < t ==> #[trigger] rejected(probe, start_index + j),
                match found {
                    Some(s) => t < MAX_DISTINCT_TRIES && call_ensures(
                        probe,
                        ((start_index + t) as usize,),
                        Some(s),
                    ),
                    None => t == MAX_DISTINCT_TRIES,
                },
            decreases MAX_DISTINCT_TRIES - t,
        {
            let answer = probe(start_index + t);
            match answer {
                Some(s) => {
                    found = Some(s);
                    break;
                },
                None => {},
            }
            t = t + 1;
        }
        match found {
            Some(s) => {
                self.next_index = start_index + t + 1;
                self.occupied.push(s);
                Some(PlayerColor::distinct(s))
            },
            None => {
                self.next_index = start_index + t;
                None
            },
        }
    }

    /// The color for a new member: the override if one is given (it becomes
    /// occupied and counts as custom), else a drawn color, else the fallback.
    pub fn assign<F: Fn(usize) -> Option<Srgb8>>(
        &mut self,
        color_override: Option<Srgb8>,
        probe: F,
    ) -> (c: PlayerColor)
        requires
            color_override is None ==> forall|i: usize| #[trigger] call_requires(probe, (i,)),
            color_override is None ==> old(self)@.next_index + MAX_DISTINCT_TRIES <= usize::MAX,
        ensures
            assigned(old(self)@, final(self)@, color_override, probe, c),
    {
        match color_override {
            Some(srgb) => {
                self.push_occupied(srgb);
                PlayerColor::custom(srgb)
            },
            None => match self.next(probe) {
                Some(c) => c,
                None => PlayerColor::distinct(fallback_color()),
            },
        }
    }
}

/// Freeing a color right after occupying it leaves the same colors occupied.
pub proof fn lemma_push_then_remove(occupied: Seq<Srgb8>, c: Srgb8)
    ensures
        occupied.push(c).remove_value(c).to_multiset() == occupied.to_multiset(),
{
    let s = occupied.push(c);
    assert(s[s.len() - 1] == c);
    assert(s.contains(c));
    s.index_of_first_ensures(c);
    let i = s.index_of_first(c).unwrap();
    vstd::seq_lib::to_multiset_remove(s, i);
    vstd::seq_lib::to_multiset_build(occupied, c);
    assert(s.to_multiset() =~= occupied.to_multiset().insert(c));
    assert(s.remove(i).to_multiset() =~= s.to_multiset().remove(c));
    assert(occupied.to_multiset().insert(c).remove(c) =~= occupied.to_multiset());
}

/// The position of the walk at which a successful draw that left the
/// generator in state `new` took its color.
pub open spec fn draw_position(new: ColorsView) -> int {
    new.next_index - 1
}

/// Successive draws never probe a position twice and each takes a position
/// past the one before: every draw starts where the last one stopped. A
/// drawn color stays occupied while colors are only added in between, so
/// the next draw is made to keep away from it.
pub proof fn lemma_draws_move_on<F: Fn(usize) -> Option<Srgb8>, G: Fn(usize) -> Option<Srgb8>>(
    v0: ColorsView,
    v1: ColorsView,
    u1: ColorsView,
    v2: ColorsView,
    probe1: F,
    probe2: G,
    c1: PlayerColor,
    c2: PlayerColor,
    added: Seq<Srgb8>,
)
    requires
        drawn(v0, v1, probe1, Some(c1)),
        u1 == (ColorsView { occupied: v1.occupied + added, ..v1 }),
        drawn(u1, v2, probe2, Some(c2)),
    ensures
        v0.next_index <= draw_position(v1) < v1.next_index,
        v1.next_index <= draw_position(v2),
        draw_position(v1) < draw_position(v2),
        u1.occupied.contains(c1.srgb),
        v2.occupied.contains(c1.srgb),
        v2.occupied.contains(c2.srgb),
{
    let n = v1.occupied.len() - 1;
    assert(v1.occupied[n] == c1.srgb);
    assert(u1.occupied[n] == c1.srgb);
    assert(v2.occupied[n] == c1.srgb);
    assert(v2.occupied[v2.occupied.len() - 1] == c2.srgb);
}

} // verus!
