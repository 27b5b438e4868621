//! The automaton engine: cell-state representation, neighborhood encoding,
//! rule application, boundary policy, and rendering.

use vstd::prelude::*;
use vstd::arithmetic::div_mod::{
    lemma_add_mod_noop, lemma_add_mod_noop_right, lemma_mod_add_multiples_vanish, lemma_mod_bound,
    lemma_small_mod,
};
use crate::modular::{add_mod, sub_mod};

verus! {

/// The left neighbor of position `i` in generation `s`: under the ring
/// boundary the ends join; under the dead-edge boundary a neighbor outside
/// `[0, len)` is dead.
pub open spec fn left_neighbor(s: Seq<bool>, i: int, wrap: bool) -> bool
    recommends
        0 <= i < s.len(),
{
    if i == 0 {
        if wrap {
            s[s.len() - 1]
        } else {
            false
        }
    } else {
        s[i - 1]
    }
}

/// The right neighbor of position `i` in generation `s`, under the same
/// boundary policy as `left_neighbor`.
pub open spec fn right_neighbor(s: Seq<bool>, i: int, wrap: bool) -> bool
    recommends
        0 <= i < s.len(),
{
    if i == s.len() - 1 {
        if wrap {
            s[0]
        } else {
            false
        }
    } else {
        s[i + 1]
    }
}

/// The 3-bit neighborhood code: left, self, right read as a binary number
/// with left as the most significant bit.
pub open spec fn code_val(l: bool, c: bool, r: bool) -> u8 {
    ((if l {
        4int
    } else {
        0int
    }) + (if c {
        2int
    } else {
        0int
    }) + (if r {
        1int
    } else {
        0int
    })) as u8
}

/// Bit `code` of the rule byte: whether a cell whose neighborhood reads
/// `code` is alive in the next generation.
pub open spec fn rule_bit(rule: u8, code: u8) -> bool {
    (rule >> code) & 1 != 0
}

/// The next value of the cell at position `i` of generation `s`.
pub open spec fn next_cell(s: Seq<bool>, i: int, rule: u8, wrap: bool) -> bool
    recommends
        0 <= i < s.len(),
{
    rule_bit(rule, code_val(left_neighbor(s, i, wrap), s[i], right_neighbor(s, i, wrap)))
}

/// One synchronous transition of a whole generation: every cell is computed
/// from the snapshot of the previous generation.
pub open spec fn step_spec(s: Seq<bool>, rule: u8, wrap: bool) -> Seq<bool> {
    Seq::new(s.len(), |i: int| next_cell(s, i, rule, wrap))
}

/// An all-dead generation of the given width.
pub open spec fn dead_gen(width: nat) -> Seq<bool> {
    Seq::new(width, |i: int| false)
}

/// Generation `k` of the run that starts at `s`: `k` applications of
/// `step_spec`.
pub open spec fn iterate(s: Seq<bool>, rule: u8, wrap: bool, k: nat) -> Seq<bool>
    decreases k,
{
    if k == 0 {
        s
    } else {
        step_spec(iterate(s, rule, wrap, (k - 1) as nat), rule, wrap)
    }
}

/// The textual rendering of generation `s`: one glyph per cell in position
/// order, the first glyph for alive and the second for dead.
pub open spec fn render_spec(s: Seq<bool>, glyphs: Seq<char>) -> Seq<char>
    recommends
        glyphs.len() == 2,
{
    Seq::new(s.len(), |i: int| if s[i] { glyphs[0] } else { glyphs[1] })
}

/// Rejected engine operations: an initial state longer than the width, or a
/// cell index outside `[0, width)`.
#[derive(Clone, Copy, PartialEq, Eq, Structural, Debug)]
pub enum GameError {
    StateTooLarge,
    IndexOutOfRange,
}

/// The automaton engine: the current generation, the fixed rule byte, the
/// fixed width, the boundary policy, and the two display glyphs
/// (alive first, dead second).
pub struct Game {
    state: Vec<bool>,
    size: usize,
    rule: u8,
    wrap: bool,
    disp: [char; 2],
}

impl View for Game {
    type V = Seq<bool>;

    closed spec fn view(&self) -> Seq<bool> {
        self.state@
    }
}

impl Game {
    /// Well-formedness: the generation buffer always has exactly `width`
    /// cells.
    pub open spec fn wf(&self) -> bool {
        self@.len() == self.width_spec()
    }

    /// The fixed rule byte.
    pub closed spec fn rule_spec(&self) -> u8 {
        self.rule
    }

    /// The fixed boundary policy: `true` is the ring boundary.
    pub closed spec fn wrap_spec(&self) -> bool {
        self.wrap
    }

    /// The fixed width.
    pub closed spec fn width_spec(&self) -> nat {
        self.size as nat
    }

    /// The two display glyphs, alive first.
    pub closed spec fn glyphs_spec(&self) -> Seq<char> {
        self.disp@
    }

    /// The configuration (everything but the generation itself) of `other`
    /// equals this engine's.
    pub open spec fn same_config(&self, other: &Game) -> bool {
        &&& self.rule_spec() == other.rule_spec()
        &&& self.wrap_spec() == other.wrap_spec()
        &&& self.width_spec() == other.width_spec()
        &&& self.glyphs_spec() == other.glyphs_spec()
    }

    /// A new engine with every cell dead. A zero width is accepted and gives
    /// the degenerate empty automaton: rendering is empty and stepping keeps
    /// it empty.
    pub fn new(rule: u8, width: usize, wrap: bool, disp: [char; 2]) -> (g: Game)
        ensures
            g.wf(),
            g@ == dead_gen(width as nat),
            g.rule_spec() == rule,
            g.wrap_spec() == wrap,
            g.width_spec() == width,
            g.glyphs_spec() == disp@,
    {
        let state = dead_row(width);
        proof {
            assert(state@ =~= dead_gen(width as nat));
        }
        Game { state, size: width, rule, wrap, disp }
    }

    /// The fixed width.
    pub fn width(&self) -> (w: usize)
        ensures
            w == self.width_spec(),
    {
        self.size
    }

    /// The neighborhood code of position `n` under the ring boundary: the
    /// leftmost and rightmost positions are each other's neighbors.
    fn neighbors_wrapping(&self, n: usize) -> (code: u8)
        requires
            self.wf(),
            n < self@.len(),
        ensures
            code == code_val(
                left_neighbor(self@, n as int, true),
                self@[n as int],
                right_neighbor(self@, n as int, true),
            ),
    {
        let prev = sub_mod(n, 1, self.size);
        let next = add_mod(n, 1, self.size);
        proof {
            let m = self.size as int;
            if n == 0 {
                lemma_small_mod((m - 1) as nat, m as nat);
            } else {
                lemma_mod_add_multiples_vanish(n - 1, m);
                lemma_small_mod((n - 1) as nat, m as nat);
            }
            if n + 1 == self.size {
                lemma_mod_add_multiples_vanish(0, m);
                lemma_small_mod(0, m as nat);
            } else {
                lemma_small_mod((n + 1) as nat, m as nat);
            }
        }
        let l: u8 = if self.state[prev] {
            1
        } else {
            0
        };
        let c: u8 = if self.state[n] {
            1
        } else {
            0
        };
        let r: u8 = if self.state[next] {
            1
        } else {
            0
        };
        4 * l + 2 * c + r
    }

    /// The neighborhood code of position `n` under the dead-edge boundary:
    /// a neighbor that would fall outside `[0, width)` counts as dead.
    fn neighbors_not_wrapping(&self, n: usize) -> (code: u8)
        requires
            self.wf(),
            n < self@.len(),
        ensures
            code == code_val(
                left_neighbor(self@, n as int, false),
                self@[n as int],
                right_neighbor(self@, n as int, false),
            ),
    {
        let l: u8 = if n > 0 && self.state[n - 1] {
            1
        } else {
            0
        };
        let c: u8 = if self.state[n] {
            1
        } else {
            0
        };
        let r: u8 = if n < self.size - 1 && self.state[n + 1] {
            1
        } else {
            0
        };
        4 * l + 2 * c + r
    }

    /// One synchronous transition, computed purely from a snapshot of the
    /// current generation: position `i` of the result holds bit
    /// `left<<2 | self<<1 | right` of the rule byte. The current generation
    /// is left untouched.
    pub fn step(&self) -> (r: Vec<bool>)
        requires
            self.wf(),
        ensures
            r@ == step_spec(self@, self.rule_spec(), self.wrap_spec()),
    {
        let mut next_step: Vec<bool> = Vec::new();
        let mut i: usize = 0;
        while i < self.size
            invariant
                self.wf(),
                i <= self.size,
                next_step@.len() == i,
                forall|j: int|
                    0 <= j < i ==> next_step@[j] == next_cell(
                        self@,
                        j,
                        self.rule_spec(),
                        self.wrap_spec(),
                    ),
            decreases self.size - i,
        {
            let code = if self.wrap {
                self.neighbors_wrapping(i)
            } else {
                self.neighbors_not_wrapping(i)
            };
            assert(code <= 7);
            next_step.push((self.rule >> code) & 1 != 0);
            i = i + 1;
        }
        proof {
            assert(next_step@ =~= step_spec(self@, self.rule_spec(), self.wrap_spec()));
        }
        next_step
    }

    /// Replaces the current generation with the result of `step`.
    pub fn step_and_update(&mut self)
        requires
            old(self).wf(),
        ensures
            final(self).wf(),
            final(self).same_config(old(self)),
            final(self)@ == step_spec(old(self)@, old(self).rule_spec(), old(self).wrap_spec()),
    {
        let next = self.step();
        self.state = next;
    }

    /// Replaces the whole generation with an all-dead buffer, then overwrites
    /// positions `0..prefix.len()` with the given values in order; positions
    /// past the prefix stay dead. A prefix longer than the width is rejected
    /// and leaves the generation unchanged.
    pub fn set_state(&mut self, state: &[bool]) -> (r: Result<(), GameError>)
        requires
            old(self).wf(),
        ensures
            final(self).wf(),
            final(self).same_config(old(self)),
            state@.len() <= old(self).width_spec() ==> {
                &&& r == Ok::<(), GameError>(())
                &&& final(self)@ == Seq::new(
                    old(self).width_spec(),
                    |i: int| if i < state@.len() { state@[i] } else { false },
                )
            },
            state@.len() > old(self).width_spec() ==> {
                &&& r == Err::<(), GameError>(GameError::StateTooLarge)
                &&& final(self)@ == old(self)@
            },
    {
        if state.len() > self.size {
            return Err(GameError::StateTooLarge);
        }
        let mut row = dead_row(self.size);
        let mut i: usize = 0;
        while i < state.len()
            invariant
                i <= state@.len() <= row@.len(),
                row@.len() == old(self).width_spec(),
                forall|j: int| 0 <= j < i ==> row@[j] == state@[j],
                forall|j: int| i <= j < row@.len() ==> !row@[j],
            decreases state@.len() - i,
        {
            let cell = state[i];
            row.set(i, cell);
            i = i + 1;
        }
        self.state = row;
        proof {
            assert(final(self)@ =~= Seq::new(
                old(self).width_spec(),
                |i: int| if i < state@.len() { state@[i] } else { false },
            ));
        }
        Ok(())
    }

    /// Replaces the whole generation with an all-dead buffer and sets exactly
    /// the cell at `n` alive. An index at or past the width (strict `<`
    /// bound) is rejected and leaves the generation unchanged.
    pub fn set_only(&mut self, n: usize) -> (r: Result<(), GameError>)
        requires
            old(self).wf(),
        ensures
            final(self).wf(),
            final(self).same_config(old(self)),
            n < old(self).width_spec() ==> {
                &&& r == Ok::<(), GameError>(())
                &&& final(self)@ == Seq::new(old(self).width_spec(), |i: int| i == n)
            },
            n >= old(self).width_spec() ==> {
                &&& r == Err::<(), GameError>(GameError::IndexOutOfRange)
                &&& final(self)@ == old(self)@
            },
    {
        if n >= self.size {
            return Err(GameError::IndexOutOfRange);
        }
        let mut row = dead_row(self.size);
        row.set(n, true);
        self.state = row;
        proof {
            assert(final(self)@ =~= Seq::new(old(self).width_spec(), |i: int| i == n));
        }
        Ok(())
    }

    /// Overwrites every cell with an independent random value. Nothing is
    /// promised of the cell values themselves; the width and configuration
    /// are unchanged.
    pub fn randomize(&mut self)
        requires
            old(self).wf(),
        ensures
            final(self).wf(),
            final(self).same_config(old(self)),
            final(self)@.len() == old(self)@.len(),
    {
        let mut row: Vec<bool> = Vec::new();
        let mut i: usize = 0;
        while i < self.size
            invariant
                i <= self.size,
                row@.len() == i,
            decreases self.size - i,
        {
            row.push(random_cell());
            i = i + 1;
        }
        self.state = row;
    }

    /// Renders the current generation: a string of exactly `width` glyphs,
    /// the alive glyph where a cell is alive and the dead glyph elsewhere.
    /// Purely a function of the state and the glyph configuration.
    pub fn render(&self) -> (s: String)
        requires
            self.wf(),
        ensures
            s@ == render_spec(self@, self.glyphs_spec()),
    {
        let mut chars: Vec<char> = Vec::new();
        let mut i: usize = 0;
        while i < self.size
            invariant
                self.wf(),
                i <= self.size,
                chars@.len() == i,
                forall|j: int|
                    0 <= j < i ==> chars@[j] == (if self@[j] {
                        self.glyphs_spec()[0]
                    } else {
                        self.glyphs_spec()[1]
                    }),
            decreases self.size - i,
        {
            let glyph = if self.state[i] {
                self.disp[0]
            } else {
                self.disp[1]
            };
            chars.push(glyph);
            i = i + 1;
        }
        proof {
            assert(chars@ =~= render_spec(self@, self.glyphs_spec()));
        }
        chars_to_string(&chars)
    }

    /// Renders and collects `n` successive generations, starting with the
    /// current one before any step, and leaves the engine `n` steps ahead:
    /// line `j` of the result renders generation `j` of the run.
    pub fn run_steps(&mut self, n: usize) -> (lines: Vec<String>)
        requires
            old(self).wf(),
        ensures
            final(self).wf(),
            final(self).same_config(old(self)),
            lines@.len() == n,
            forall|j: int|
                0 <= j < n ==> lines@[j]@ == render_spec(
                    iterate(old(self)@, old(self).rule_spec(), old(self).wrap_spec(), j as nat),
                    old(self).glyphs_spec(),
                ),
            final(self)@ == iterate(
                old(self)@,
                old(self).rule_spec(),
                old(self).wrap_spec(),
                n as nat,
            ),
    {
        let ghost g0 = *old(self);
        let mut lines: Vec<String> = Vec::new();
        let mut k: usize = 0;
        while k < n
            invariant
                self.wf(),
                self.same_config(&g0),
                k <= n,
                lines@.len() == k,
                self@ == iterate(g0@, g0.rule_spec(), g0.wrap_spec(), k as nat),
                forall|j: int|
                    0 <= j < k ==> lines@[j]@ == render_spec(
                        iterate(g0@, g0.rule_spec(), g0.wrap_spec(), j as nat),
                        g0.glyphs_spec(),
                    ),
            decreases n - k,
        {
            let line = self.render();
            lines.push(line);
            self.step_and_update();
            k = k + 1;
        }
        lines
    }
}

/// `step_spec` is deterministic: identical input generation and
/// configuration always yield an identical output generation.
pub proof fn lemma_step_deterministic(s1: Seq<bool>, s2: Seq<bool>, rule: u8, wrap: bool)
    requires
        s1 == s2,
    ensures
        step_spec(s1, rule, wrap) == step_spec(s2, rule, wrap),
{
}

/// Under rule 0 one step of any generation is all dead, under either
/// boundary policy: every neighborhood code maps to an unset bit.
pub proof fn lemma_rule_zero_all_dead(s: Seq<bool>, wrap: bool)
    ensures
        step_spec(s, 0, wrap).len() == s.len(),
        forall|i: int| 0 <= i < s.len() ==> !step_spec(s, 0, wrap)[i],
{
    assert(forall|c: u8| c <= 7 ==> ((0u8 >> c) & 1) == 0) by (bit_vector);
    assert forall|i: int| 0 <= i < s.len() implies !step_spec(s, 0, wrap)[i] by {
        let c = code_val(left_neighbor(s, i, wrap), s[i], right_neighbor(s, i, wrap));
        assert(c <= 7);
    }
}

/// Under rule 255 one step of any generation is all alive, under either
/// boundary policy: every bit of the rule byte is set.
pub proof fn lemma_rule_full_all_alive(s: Seq<bool>, wrap: bool)
    ensures
        step_spec(s, 255, wrap).len() == s.len(),
        forall|i: int| 0 <= i < s.len() ==> step_spec(s, 255, wrap)[i],
{
    assert(forall|c: u8| c <= 7 ==> ((255u8 >> c) & 1) == 1) by (bit_vector);
    assert forall|i: int| 0 <= i < s.len() implies step_spec(s, 255, wrap)[i] by {
        let c = code_val(left_neighbor(s, i, wrap), s[i], right_neighbor(s, i, wrap));
        assert(c <= 7);
    }
}

/// Generation `s` cyclically shifted by `k` positions: position `i` of the
/// result holds the cell at position `(i + k) mod len` of `s`.
pub open spec fn rotate(s: Seq<bool>, k: int) -> Seq<bool>
    recommends
        s.len() > 0,
        k >= 0,
{
    Seq::new(s.len(), |i: int| s[(i + k) % (s.len() as int)])
}

/// `(a mod n + b) mod n == (a + b) mod n`: a reduced summand does not change
/// a sum taken mod `n`.
proof fn lemma_mod_add_assoc(a: int, b: int, n: int)
    requires
        0 < n,
    ensures
        ((a % n) + b) % n == (a + b) % n,
{
    lemma_add_mod_noop_right(a % n, b, n);
    lemma_add_mod_noop(a, b, n);
}

/// On the ring, both neighbors of position `j` are given by wrap-around
/// index arithmetic.
proof fn lemma_ring_neighbors(u: Seq<bool>, j: int)
    requires
        u.len() > 0,
        0 <= j < u.len(),
    ensures
        left_neighbor(u, j, true) == u[(j - 1 + u.len()) % (u.len() as int)],
        right_neighbor(u, j, true) == u[(j + 1) % (u.len() as int)],
{
    let n = u.len() as int;
    if j == 0 {
        lemma_small_mod((n - 1) as nat, n as nat);
    } else {
        lemma_mod_add_multiples_vanish(j - 1, n);
        lemma_small_mod((j - 1) as nat, n as nat);
    }
    if j == n - 1 {
        lemma_mod_add_multiples_vanish(0, n);
        lemma_small_mod(0, n as nat);
    } else {
        lemma_small_mod((j + 1) as nat, n as nat);
    }
}

/// Translation invariance on the ring: stepping a cyclically shifted
/// generation gives the step of the original, shifted by the same amount.
pub proof fn lemma_wrap_translation_invariance(s: Seq<bool>, rule: u8, k: int)
    requires
        s.len() > 0,
        k >= 0,
    ensures
        step_spec(rotate(s, k), rule, true) == rotate(step_spec(s, rule, true), k),
{
    let n = s.len() as int;
    let t = rotate(s, k);
    let lhs = step_spec(t, rule, true);
    let rhs = rotate(step_spec(s, rule, true), k);
    assert forall|i: int| 0 <= i < n implies lhs[i] == rhs[i] by {
        let j = (i + k) % n;
        lemma_mod_bound(i + k, n);
        lemma_ring_neighbors(t, i);
        lemma_ring_neighbors(s, j);
        lemma_mod_bound(i - 1 + n, n);
        lemma_mod_bound(i + 1, n);
        // The left neighbors coincide.
        lemma_mod_add_assoc(i - 1 + n, k, n);
        lemma_mod_add_assoc(i + k, n - 1, n);
        assert(((i - 1 + n) % n + k) % n == (j - 1 + n) % n);
        // The cells themselves coincide.
        assert(t[i] == s[j]);
        // The right neighbors coincide.
        lemma_mod_add_assoc(i + 1, k, n);
        lemma_mod_add_assoc(i + k, 1, n);
        assert(((i + 1) % n + k) % n == (j + 1) % n);
    }
    assert(lhs =~= rhs);
}

/// Relies on `rand::random::<bool>`: one draw from the thread-local
/// generator, alive or dead with equal probability. Nothing can be promised
/// of the value.
#[verifier::external_body]
fn random_cell() -> bool {
    rand::random()
}

/// Relies on `Iterator::collect` for `String`: collecting an iterator of
/// `char`s yields the string of exactly those characters in order.
#[verifier::external_body]
fn chars_to_string(chars: &Vec<char>) -> (s: String)
    ensures
        s@ == chars@,
{
    chars.iter().collect()
}

/// An all-dead row of the given width.
fn dead_row(width: usize) -> (v: Vec<bool>)
    ensures
        v@ == dead_gen(width as nat),
{
    let mut v: Vec<bool> = Vec::new();
    let mut i: usize = 0;
    while i < width
        invariant
            i <= width,
            v@.len() == i,
            forall|j: int| 0 <= j < i ==> !v@[j],
        decreases width - i,
    {
        v.push(false);
        i = i + 1;
    }
    proof {
        assert(v@ =~= dead_gen(width as nat));
    }
    v
}

} // verus!
