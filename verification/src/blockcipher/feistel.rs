//! A Feistel network whose f-function, key schedule and block combination
//! are supplied as closures, recording every intermediate value it computes.
//!
//! The closures a user supplies are arbitrary: the contracts speak of them
//! through `call_requires` / `call_ensures`, so what is proved holds of
//! whatever the supplied closures return.
use std::marker::PhantomData;
use vstd::prelude::*;

verus! {

/// The four intermediate values of one f-function evaluation.
#[derive(Clone, Copy, Debug)]
pub struct FStepTrace<B: Copy, E: Copy> {
    pub after_expand: E,
    pub after_key_mix: E,
    pub after_substitute: B,
    pub after_permute: B,
}

/// The state entering one Feistel round, with the round key and the
/// f-function trace computed in it.
#[derive(Clone, Copy, Debug)]
pub struct FeistelRoundState<B: Copy, E: Copy> {
    pub round: usize,
    pub left: B,
    pub right: B,
    pub round_key: E,
    pub f_trace: FStepTrace<B, E>,
}

/// The f-function: expand, mix with the round key, substitute, permute.
pub struct FeistelF<B: Copy, E: Copy, X, K, S, P> {
    expand: X,
    key_mix: K,
    substitute: S,
    permute: P,
    marker: PhantomData<(B, E)>,
}

impl<B: Copy, E: Copy, X, K, S, P> FeistelF<B, E, X, K, S, P> {
    pub closed spec fn expand_fn(&self) -> X {
        self.expand
    }

    pub closed spec fn key_mix_fn(&self) -> K {
        self.key_mix
    }

    pub closed spec fn substitute_fn(&self) -> S {
        self.substitute
    }

    pub closed spec fn permute_fn(&self) -> P {
        self.permute
    }
}

impl<B: Copy, E: Copy, X, K, S, P> FeistelF<B, E, X, K, S, P> where
    X: Fn(B) -> E,
    K: Fn(E, E) -> E,
    S: Fn(E) -> B,
    P: Fn(B) -> B,
 {
    /// Every step of the f-function accepts every input.
    pub open spec fn total(&self) -> bool {
        &&& forall|b: B| #[trigger] call_requires(self.expand_fn(), (b,))
        &&& forall|e: E, k: E| #[trigger] call_requires(self.key_mix_fn(), (e, k))
        &&& forall|e: E| #[trigger] call_requires(self.substitute_fn(), (e,))
        &&& forall|b: B| #[trigger] call_requires(self.permute_fn(), (b,))
    }

    /// Each step accepts what the step before it can hand it, starting from
    /// `block` and `round_key`.
    pub open spec fn accepts(&self, block: B, round_key: E) -> bool {
        &&& call_requires(self.expand_fn(), (block,))
        &&& forall|e: E|
            #[trigger] call_ensures(self.expand_fn(), (block,), e) ==> {
                &&& call_requires(self.key_mix_fn(), (e, round_key))
                &&& forall|m: E|
                    #[trigger] call_ensures(self.key_mix_fn(), (e, round_key), m) ==> {
                        &&& call_requires(self.substitute_fn(), (m,))
                        &&& forall|b: B|
                            #[trigger] call_ensures(self.substitute_fn(), (m,), b) ==> call_requires(
                                self.permute_fn(),
                                (b,),
                            )
                    }
            }
    }

    /// A total f-function accepts every block and round key.
    pub proof fn lemma_total_accepts(&self, block: B, round_key: E)
        requires
            self.total(),
        ensures
            self.accepts(block, round_key),
    {
    }

    /// Each step gives one result per input.
    pub open spec fn deterministic(&self) -> bool {
        &&& forall|x: B, y1: E, y2: E|
            #![trigger call_ensures(self.expand_fn(), (x,), y1), call_ensures(self.expand_fn(), (x,), y2)]
            call_ensures(self.expand_fn(), (x,), y1) && call_ensures(self.expand_fn(), (x,), y2) ==> y1 == y2
        &&& forall|e: E, k: E, y1: E, y2: E|
            #![trigger call_ensures(self.key_mix_fn(), (e, k), y1), call_ensures(self.key_mix_fn(), (e, k), y2)]
            call_ensures(self.key_mix_fn(), (e, k), y1) && call_ensures(self.key_mix_fn(), (e, k), y2) ==> y1 == y2
        &&& forall|e: E, y1: B, y2: B|
            #![trigger call_ensures(self.substitute_fn(), (e,), y1), call_ensures(self.substitute_fn(), (e,), y2)]
            call_ensures(self.substitute_fn(), (e,), y1) && call_ensures(self.substitute_fn(), (e,), y2) ==> y1 == y2
        &&& forall|x: B, y1: B, y2: B|
            #![trigger call_ensures(self.permute_fn(), (x,), y1), call_ensures(self.permute_fn(), (x,), y2)]
            call_ensures(self.permute_fn(), (x,), y1) && call_ensures(self.permute_fn(), (x,), y2) ==> y1 == y2
    }

    /// With deterministic steps, a block and round key have one trace.
    pub proof fn lemma_trace_unique(&self, block: B, round_key: E, t1: FStepTrace<B, E>, t2: FStepTrace<B, E>)
        requires
            self.deterministic(),
            self.traces(block, round_key, t1),
            self.traces(block, round_key, t2),
        ensures
            t1 == t2,
    {
    }

    /// `t` is a trace that the f-function can produce on `block` and
    /// `round_key`: each step applied to the result of the one before.
    pub open spec fn traces(&self, block: B, round_key: E, t: FStepTrace<B, E>) -> bool {
        &&& call_ensures(self.expand_fn(), (block,), t.after_expand)
        &&& call_ensures(self.key_mix_fn(), (t.after_expand, round_key), t.after_key_mix)
        &&& call_ensures(self.substitute_fn(), (t.after_key_mix,), t.after_substitute)
        &&& call_ensures(self.permute_fn(), (t.after_substitute,), t.after_permute)
    }

    /// Evaluates the f-function on `block` with `round_key`, returning its
    /// output and the trace of its four steps.
    pub fn call(&self, block: B, round_key: E) -> (r: (B, FStepTrace<B, E>))
        requires
            self.accepts(block, round_key),
        ensures
            self.traces(block, round_key, r.1),
            r.0 == r.1.after_permute,
    {
        assert(call_requires(self.expand_fn(), (block,)));
        let expanded = (self.expand)(block);
        assert(call_requires(self.key_mix_fn(), (expanded, round_key)));
        let mixed = (self.key_mix)(expanded, round_key);
        assert(call_requires(self.substitute_fn(), (mixed,)));
        let substituted = (self.substitute)(mixed);
        assert(call_requires(self.permute_fn(), (substituted,)));
        let permuted = (self.permute)(substituted);
        (
            permuted,
            FStepTrace {
                after_expand: expanded,
                after_key_mix: mixed,
                after_substitute: substituted,
                after_permute: permuted,
            },
        )
    }
}

/// Collects the four steps of an f-function.
pub struct FeistelFBuilder<B: Copy, E: Copy, X, K, S, P> {
    expand: Option<X>,
    key_mix: Option<K>,
    substitute: Option<S>,
    permute: Option<P>,
    marker: PhantomData<(B, E)>,
}

impl<B: Copy, E: Copy, X, K, S, P> FeistelFBuilder<B, E, X, K, S, P> {
    pub closed spec fn expand_opt(&self) -> Option<X> {
        self.expand
    }

    pub closed spec fn key_mix_opt(&self) -> Option<K> {
        self.key_mix
    }

    pub closed spec fn substitute_opt(&self) -> Option<S> {
        self.substitute
    }

    pub closed spec fn permute_opt(&self) -> Option<P> {
        self.permute
    }
}

impl<B: Copy, E: Copy, X, K, S, P> FeistelFBuilder<B, E, X, K, S, P> where
    X: Fn(B) -> E,
    K: Fn(E, E) -> E,
    S: Fn(E) -> B,
    P: Fn(B) -> B,
 {
    /// A builder with no step configured.
    pub fn new() -> (r: Self)
        ensures
            r.expand_opt() is None,
            r.key_mix_opt() is None,
            r.substitute_opt() is None,
            r.permute_opt() is None,
    {
        Self { expand: None, key_mix: None, substitute: None, permute: None, marker: PhantomData }
    }

    /// Sets the expansion step.
    pub fn expand(self, f: X) -> (r: Self)
        ensures
            r.expand_opt() == Some(f),
            r.key_mix_opt() == self.key_mix_opt(),
            r.substitute_opt() == self.substitute_opt(),
            r.permute_opt() == self.permute_opt(),
    {
        let mut b = self;
        b.expand = Some(f);
        b
    }

    /// Sets the key-mixing step.
    pub fn key_mix(self, f: K) -> (r: Self)
        ensures
            r.expand_opt() == self.expand_opt(),
            r.key_mix_opt() == Some(f),
            r.substitute_opt() == self.substitute_opt(),
            r.permute_opt() == self.permute_opt(),
    {
        let mut b = self;
        b.key_mix = Some(f);
        b
    }

    /// Sets the substitution step.
    pub fn substitute(self, f: S) -> (r: Self)
        ensures
            r.expand_opt() == self.expand_opt(),
            r.key_mix_opt() == self.key_mix_opt(),
            r.substitute_opt() == Some(f),
            r.permute_opt() == self.permute_opt(),
    {
        let mut b = self;
        b.substitute = Some(f);
        b
    }

    /// Sets the permutation step.
    pub fn permute(self, f: P) -> (r: Self)
        ensures
            r.expand_opt() == self.expand_opt(),
            r.key_mix_opt() == self.key_mix_opt(),
            r.substitute_opt() == self.substitute_opt(),
            r.permute_opt() == Some(f),
    {
        let mut b = self;
        b.permute = Some(f);
        b
    }

    /// The f-function made of the configured steps; all four must be set.
    pub fn build(self) -> (r: FeistelF<B, E, X, K, S, P>)
        requires
            self.expand_opt() is Some,
            self.key_mix_opt() is Some,
            self.substitute_opt() is Some,
            self.permute_opt() is Some,
        ensures
            r.expand_fn() == self.expand_opt()->Some_0,
            r.key_mix_fn() == self.key_mix_opt()->Some_0,
            r.substitute_fn() == self.substitute_opt()->Some_0,
            r.permute_fn() == self.permute_opt()->Some_0,
    {
        FeistelF {
            expand: self.expand.unwrap(),
            key_mix: self.key_mix.unwrap(),
            substitute: self.substitute.unwrap(),
            permute: self.permute.unwrap(),
            marker: PhantomData,
        }
    }
}

/// Derives round keys from a master key: `init` makes the schedule's
/// starting state, and each call of `step` on a state and round number
/// gives the next state and that round's key.
pub struct KeySchedule<MK, S, RK, I, St> {
    init: I,
    step: St,
    marker: PhantomData<(MK, S, RK)>,
}

impl<MK, S, RK, I, St> KeySchedule<MK, S, RK, I, St> {
    pub closed spec fn init_fn(&self) -> I {
        self.init
    }

    pub closed spec fn step_fn(&self) -> St {
        self.step
    }
}

impl<MK: Copy, S, RK: Copy, I, St> KeySchedule<MK, S, RK, I, St> where
    I: Fn(MK) -> S,
    St: Fn(S, usize) -> (S, RK),
 {
    /// The round keys of `master_key`, starting at round 0.
    pub fn for_key(&self, master_key: MK) -> (r: RoundKeys<'_, S, RK, St>)
        requires
            call_requires(self.init_fn(), (master_key,)),
        ensures
            r.wf(),
            call_ensures(self.init_fn(), (master_key,), r.state()),
            r.round() == 0,
            r.step_fn() == self.step_fn(),
    {
        let state = (self.init)(master_key);
        RoundKeys { state: Some(state), round: 0, step: &self.step, marker: PhantomData }
    }
}

/// The round keys of one master key, handed out one round at a time.
pub struct RoundKeys<'a, S, RK, St> {
    state: Option<S>,
    round: usize,
    step: &'a St,
    marker: PhantomData<RK>,
}

impl<'a, S, RK, St> RoundKeys<'a, S, RK, St> {
    /// The schedule's state is present (it is absent only inside `next`).
    pub closed spec fn wf(&self) -> bool {
        self.state is Some
    }

    /// The state from which the next round key is derived.
    pub closed spec fn state(&self) -> S {
        self.state->Some_0
    }

    /// The number of the next round.
    pub closed spec fn round(&self) -> usize {
        self.round
    }

    pub closed spec fn step_fn(&self) -> St {
        *self.step
    }
}

impl<'a, S, RK, St> RoundKeys<'a, S, RK, St> where St: Fn(S, usize) -> (S, RK) {
    /// The key of the current round; advances the state and the round.
    pub fn next(&mut self) -> (rk: RK)
        requires
            old(self).wf(),
            old(self).round() < usize::MAX,
            call_requires(old(self).step_fn(), (old(self).state(), old(self).round())),
        ensures
            final(self).wf(),
            call_ensures(
                old(self).step_fn(),
                (old(self).state(), old(self).round()),
                (final(self).state(), rk),
            ),
            final(self).round() == old(self).round() + 1,
            final(self).step_fn() == old(self).step_fn(),
    {
        let state = self.state.take().unwrap();
        let (next_state, rk) = (self.step)(state, self.round);
        self.state = Some(next_state);
        self.round = self.round + 1;
        rk
    }
}

/// Collects the two parts of a key schedule.
pub struct KeyScheduleBuilder<MK, S, RK, I, St> {
    init: Option<I>,
    step: Option<St>,
    marker: PhantomData<(MK, S, RK)>,
}

impl<MK, S, RK, I, St> KeyScheduleBuilder<MK, S, RK, I, St> {
    pub closed spec fn init_opt(&self) -> Option<I> {
        self.init
    }

    pub closed spec fn step_opt(&self) -> Option<St> {
        self.step
    }
}

impl<MK: Copy, S, RK: Copy, I, St> KeyScheduleBuilder<MK, S, RK, I, St> where
    I: Fn(MK) -> S,
    St: Fn(S, usize) -> (S, RK),
 {
    /// A builder with neither part configured.
    pub fn new() -> (r: Self)
        ensures
            r.init_opt() is None,
            r.step_opt() is None,
    {
        Self { init: None, step: None, marker: PhantomData }
    }

    /// Sets the function that makes the starting state from a master key.
    pub fn init(self, f: I) -> (r: Self)
        ensures
            r.init_opt() == Some(f),
            r.step_opt() == self.step_opt(),
    {
        let mut b = self;
        b.init = Some(f);
        b
    }

    /// Sets the function that derives each round key.
    pub fn step(self, f: St) -> (r: Self)
        ensures
            r.init_opt() == self.init_opt(),
            r.step_opt() == Some(f),
    {
        let mut b = self;
        b.step = Some(f);
        b
    }

    /// The key schedule made of the configured parts; both must be set.
    pub fn build(self) -> (r: KeySchedule<MK, S, RK, I, St>)
        requires
            self.init_opt() is Some,
            self.step_opt() is Some,
        ensures
            r.init_fn() == self.init_opt()->Some_0,
            r.step_fn() == self.step_opt()->Some_0,
    {
        KeySchedule { init: self.init.unwrap(), step: self.step.unwrap(), marker: PhantomData }
    }
}

/// `ks` is a run of the key-schedule step from round `start`: state
/// `ks[i]` at round `start + i` gives state `ks[i + 1]` and key `keys[i]`.
pub open spec fn schedule_run<S, RK, St: Fn(S, usize) -> (S, RK)>(
    step: St,
    ks: Seq<S>,
    start: int,
    keys: Seq<RK>,
) -> bool {
    &&& ks.len() == keys.len() + 1
    &&& forall|i: int|
        0 <= i < keys.len() ==> #[trigger] call_ensures(
            step,
            (ks[i], (start + i) as usize),
            (ks[i + 1], keys[i]),
        )
}

/// The key-schedule step gives one next state and key per state and round.
pub open spec fn step_deterministic<S, RK, St: Fn(S, usize) -> (S, RK)>(step: St) -> bool {
    forall|s: S, n: usize, y1: (S, RK), y2: (S, RK)|
        #![trigger call_ensures(step, (s, n), y1), call_ensures(step, (s, n), y2)]
        call_ensures(step, (s, n), y1) && call_ensures(step, (s, n), y2) ==> y1 == y2
}

/// Two runs of a deterministic key-schedule step from the same state and
/// round, for the same number of rounds, pass through the same states and
/// give the same keys, round by round.
pub proof fn lemma_schedule_run_unique<S, RK, St: Fn(S, usize) -> (S, RK)>(
    step: St,
    ks1: Seq<S>,
    keys1: Seq<RK>,
    ks2: Seq<S>,
    keys2: Seq<RK>,
    start: int,
)
    requires
        step_deterministic(step),
        schedule_run(step, ks1, start, keys1),
        schedule_run(step, ks2, start, keys2),
        keys1.len() == keys2.len(),
        ks1[0] == ks2[0],
    ensures
        ks1 == ks2,
        keys1 == keys2,
{
    assert forall|i: int| 0 <= i <= keys1.len() implies ks1[i] == ks2[i] by {
        lemma_schedule_states_agree(step, ks1, keys1, ks2, keys2, start, i);
    }
    assert forall|i: int| 0 <= i < keys1.len() implies keys1[i] == keys2[i] by {
        lemma_schedule_states_agree(step, ks1, keys1, ks2, keys2, start, i);
        assert(call_ensures(step, (ks1[i], (start + i) as usize), (ks1[i + 1], keys1[i])));
        assert(call_ensures(step, (ks2[i], (start + i) as usize), (ks2[i + 1], keys2[i])));
    }
    assert(ks1 =~= ks2);
    assert(keys1 =~= keys2);
}

proof fn lemma_schedule_states_agree<S, RK, St: Fn(S, usize) -> (S, RK)>(
    step: St,
    ks1: Seq<S>,
    keys1: Seq<RK>,
    ks2: Seq<S>,
    keys2: Seq<RK>,
    start: int,
    i: int,
)
    requires
        step_deterministic(step),
        schedule_run(step, ks1, start, keys1),
        schedule_run(step, ks2, start, keys2),
        keys1.len() == keys2.len(),
        ks1[0] == ks2[0],
        0 <= i <= keys1.len(),
    ensures
        ks1[i] == ks2[i],
    decreases i,
{
    if i > 0 {
        lemma_schedule_states_agree(step, ks1, keys1, ks2, keys2, start, i - 1);
        assert(call_ensures(step, (ks1[i - 1], (start + (i - 1)) as usize), (ks1[(i - 1) + 1], keys1[i - 1])));
        assert(call_ensures(step, (ks2[i - 1], (start + (i - 1)) as usize), (ks2[(i - 1) + 1], keys2[i - 1])));
    }
}

/// Entry `i` of `h` is round `i`, and its f-trace is one that `f` gives on
/// its right half and round key.
pub open spec fn round_entry<B: Copy, E: Copy, X, K, S, P>(
    f: FeistelF<B, E, X, K, S, P>,
    h: Seq<FeistelRoundState<B, E>>,
    i: int,
) -> bool where X: Fn(B) -> E, K: Fn(E, E) -> E, S: Fn(E) -> B, P: Fn(B) -> B {
    &&& h[i].round == i
    &&& f.traces(h[i].right, h[i].round_key, h[i].f_trace)
}

/// Round `i` of `h` follows from round `i - 1`: the old right half becomes
/// the left half, and the right half is the old left half combined (by
/// `xor`) with the f-function output.
pub open spec fn round_link<B: Copy, E: Copy, XO: Fn(B, B) -> B>(
    xor: XO,
    h: Seq<FeistelRoundState<B, E>>,
    i: int,
) -> bool {
    &&& h[i].left == h[i - 1].right
    &&& call_ensures(xor, (h[i - 1].left, h[i - 1].f_trace.after_permute), h[i].right)
}

/// A Feistel network of a fixed number of rounds, keeping the state of
/// every round of its last run.
pub struct Feistel<B: Copy, E: Copy, XO, X, K, S, P> {
    xor: XO,
    f: FeistelF<B, E, X, K, S, P>,
    rounds: usize,
    history: Vec<FeistelRoundState<B, E>>,
}

impl<B: Copy, E: Copy, XO, X, K, S, P> Feistel<B, E, XO, X, K, S, P> {
    pub closed spec fn xor_fn(&self) -> XO {
        self.xor
    }

    pub closed spec fn f(&self) -> FeistelF<B, E, X, K, S, P> {
        self.f
    }

    pub closed spec fn rounds(&self) -> usize {
        self.rounds
    }

    /// The round states recorded by the last run.
    pub closed spec fn history(&self) -> Seq<FeistelRoundState<B, E>> {
        self.history@
    }
}

impl<B: Copy, E: Copy, XO, X, K, S, P> Feistel<B, E, XO, X, K, S, P> where
    XO: Fn(B, B) -> B,
    X: Fn(B) -> E,
    K: Fn(E, E) -> E,
    S: Fn(E) -> B,
    P: Fn(B) -> B,
 {
    /// The combining function accepts every pair of halves.
    pub open spec fn xor_total(&self) -> bool {
        forall|a: B, b: B| #[trigger] call_requires(self.xor_fn(), (a, b))
    }

    /// `h` and `out` are the round states and the output of this network
    /// run on the halves `left` and `right`.
    pub open spec fn runs(
        &self,
        left: B,
        right: B,
        h: Seq<FeistelRoundState<B, E>>,
        out: (B, B),
    ) -> bool {
        &&& h.len() == self.rounds()
        &&& forall|i: int| 0 <= i < h.len() ==> #[trigger] round_entry(self.f(), h, i)
        &&& forall|i: int| 0 < i < h.len() ==> #[trigger] round_link(self.xor_fn(), h, i)
        &&& if h.len() == 0 {
            out == (left, right)
        } else {
            &&& h[0].left == left
            &&& h[0].right == right
            &&& out.0 == h[h.len() - 1].right
            &&& call_ensures(
                self.xor_fn(),
                (h[h.len() - 1].left, h[h.len() - 1].f_trace.after_permute),
                out.1,
            )
        }
    }

    /// The combining function gives one result per pair of halves.
    pub open spec fn xor_deterministic(&self) -> bool {
        forall|a: B, b: B, y1: B, y2: B|
            #![trigger call_ensures(self.xor_fn(), (a, b), y1), call_ensures(self.xor_fn(), (a, b), y2)]
            call_ensures(self.xor_fn(), (a, b), y1) && call_ensures(self.xor_fn(), (a, b), y2) ==> y1 == y2
    }

    /// With deterministic parts, runs on the same halves with the same round
    /// keys record the same rounds and give the same output.
    pub proof fn lemma_runs_unique(
        &self,
        left: B,
        right: B,
        h1: Seq<FeistelRoundState<B, E>>,
        out1: (B, B),
        h2: Seq<FeistelRoundState<B, E>>,
        out2: (B, B),
    )
        requires
            self.f().deterministic(),
            self.xor_deterministic(),
            self.runs(left, right, h1, out1),
            self.runs(left, right, h2, out2),
            forall|i: int| 0 <= i < h1.len() ==> #[trigger] h1[i].round_key == h2[i].round_key,
        ensures
            h1 == h2,
            out1 == out2,
    {
        assert forall|i: int| 0 <= i < h1.len() implies h1[i] == h2[i] by {
            self.lemma_rounds_agree(left, right, h1, out1, h2, out2, i);
        }
        assert(h1 =~= h2);
        if h1.len() > 0 {
            let n = h1.len() - 1;
            assert(h1[n] == h2[n]);
        }
    }

    /// Combining twice with the same value gives the first value back.
    pub open spec fn xor_involutive(&self) -> bool {
        forall|a: B, b: B, c: B, d: B|
            #![trigger call_ensures(self.xor_fn(), (a, b), c), call_ensures(self.xor_fn(), (c, b), d)]
            call_ensures(self.xor_fn(), (a, b), c) && call_ensures(self.xor_fn(), (c, b), d) ==> d == a
    }

    /// The right half entering round `m` of a run recorded in `h` with
    /// output `out` (round `h.len()` meaning the output).
    pub open spec fn right_half_at(h: Seq<FeistelRoundState<B, E>>, out: (B, B), m: int) -> B {
        if m == h.len() {
            out.1
        } else {
            h[m].right
        }
    }

    /// Decryption: running the network on the swapped output of a run, with
    /// the round keys in reverse order, gives back the swapped input, when
    /// the f-function is deterministic and combining is undone by combining
    /// again.
    pub proof fn lemma_reversed_keys_undo(
        &self,
        left: B,
        right: B,
        h1: Seq<FeistelRoundState<B, E>>,
        out1: (B, B),
        h2: Seq<FeistelRoundState<B, E>>,
        out2: (B, B),
    )
        requires
            self.f().deterministic(),
            self.xor_involutive(),
            self.runs(left, right, h1, out1),
            self.runs(out1.1, out1.0, h2, out2),
            forall|i: int| 0 <= i < h2.len() ==> #[trigger] h2[i].round_key == h1[h1.len() - 1 - i].round_key,
        ensures
            out2 == (right, left),
    {
        let n = h1.len() as int;
        if n > 0 {
            self.lemma_reversed_rounds(left, right, h1, out1, h2, out2, n - 1);
            assert(round_entry(self.f(), h1, 0));
            assert(round_entry(self.f(), h2, n - 1));
            assert(h2[n - 1].round_key == h1[0].round_key);
            self.f().lemma_trace_unique(h1[0].right, h1[0].round_key, h1[0].f_trace, h2[n - 1].f_trace);
            if n > 1 {
                assert(round_link(self.xor_fn(), h1, 1));
            }
        }
    }

    proof fn lemma_reversed_rounds(
        &self,
        left: B,
        right: B,
        h1: Seq<FeistelRoundState<B, E>>,
        out1: (B, B),
        h2: Seq<FeistelRoundState<B, E>>,
        out2: (B, B),
        j: int,
    )
        requires
            self.f().deterministic(),
            self.xor_involutive(),
            self.runs(left, right, h1, out1),
            self.runs(out1.1, out1.0, h2, out2),
            forall|i: int| 0 <= i < h2.len() ==> #[trigger] h2[i].round_key == h1[h1.len() - 1 - i].round_key,
            0 <= j < h1.len(),
        ensures
            h2[j].left == Self::right_half_at(h1, out1, h1.len() - j),
            h2[j].right == Self::right_half_at(h1, out1, h1.len() - 1 - j),
        decreases j,
    {
        let n = h1.len() as int;
        if j > 0 {
            self.lemma_reversed_rounds(left, right, h1, out1, h2, out2, j - 1);
            let m = n - j;
            assert(round_link(self.xor_fn(), h2, j));
            assert(round_entry(self.f(), h2, j - 1));
            assert(round_entry(self.f(), h1, m));
            assert(h2[j - 1].round_key == h1[m].round_key);
            self.f().lemma_trace_unique(h1[m].right, h1[m].round_key, h1[m].f_trace, h2[j - 1].f_trace);
            assert(round_link(self.xor_fn(), h1, m));
            if j > 1 {
                assert(round_link(self.xor_fn(), h1, m + 1));
            }
        }
    }

    proof fn lemma_rounds_agree(
        &self,
        left: B,
        right: B,
        h1: Seq<FeistelRoundState<B, E>>,
        out1: (B, B),
        h2: Seq<FeistelRoundState<B, E>>,
        out2: (B, B),
        i: int,
    )
        requires
            self.f().deterministic(),
            self.xor_deterministic(),
            self.runs(left, right, h1, out1),
            self.runs(left, right, h2, out2),
            forall|j: int| 0 <= j < h1.len() ==> #[trigger] h1[j].round_key == h2[j].round_key,
            0 <= i < h1.len(),
        ensures
            h1[i] == h2[i],
        decreases i,
    {
        if i > 0 {
            self.lemma_rounds_agree(left, right, h1, out1, h2, out2, i - 1);
            assert(round_link(self.xor_fn(), h1, i));
            assert(round_link(self.xor_fn(), h2, i));
        }
        assert(round_entry(self.f(), h1, i));
        assert(round_entry(self.f(), h2, i));
        assert(h1[i].round_key == h2[i].round_key);
        self.f().lemma_trace_unique(h1[i].right, h1[i].round_key, h1[i].f_trace, h2[i].f_trace);
    }

    /// `h`, `ks`, `l` and `r` are what a run on `left` and `right`, with keys
    /// from `step` starting at round `start` in state `s0`, has recorded and
    /// holds after its first `h.len()` rounds.
    pub open spec fn run_prefix<KS, St: Fn(KS, usize) -> (KS, E)>(
        &self,
        left: B,
        right: B,
        step: St,
        start: int,
        s0: KS,
        h: Seq<FeistelRoundState<B, E>>,
        ks: Seq<KS>,
        l: B,
        r: B,
    ) -> bool {
        &&& h.len() <= self.rounds()
        &&& forall|i: int| 0 <= i < h.len() ==> #[trigger] round_entry(self.f(), h, i)
        &&& forall|i: int| 0 < i < h.len() ==> #[trigger] round_link(self.xor_fn(), h, i)
        &&& h.len() == 0 ==> l == left && r == right
        &&& h.len() > 0 ==> {
            &&& h[0].left == left
            &&& h[0].right == right
            &&& l == h[h.len() - 1].right
            &&& call_ensures(self.xor_fn(), (h[h.len() - 1].left, h[h.len() - 1].f_trace.after_permute), r)
        }
        &&& schedule_run(step, ks, start, h.map_values(|e: FeistelRoundState<B, E>| e.round_key))
        &&& ks[0] == s0
    }

    /// Every call a run on `left` and `right` makes, with keys from `step`
    /// starting at round `start` in state `s0`, is accepted by its callee:
    /// the key step, the f-function steps and the combination, each on what
    /// the run has computed up to it.
    pub open spec fn accepts_run<KS, St: Fn(KS, usize) -> (KS, E)>(
        &self,
        left: B,
        right: B,
        step: St,
        start: int,
        s0: KS,
    ) -> bool {
        forall|h: Seq<FeistelRoundState<B, E>>, ks: Seq<KS>, l: B, r: B|
            #[trigger] self.run_prefix(left, right, step, start, s0, h, ks, l, r) && h.len() < self.rounds() ==> {
                &&& call_requires(step, (ks.last(), (start + h.len()) as usize))
                &&& forall|y: (KS, E)|
                    #[trigger] call_ensures(step, (ks.last(), (start + h.len()) as usize), y) ==> {
                        &&& self.f().accepts(r, y.1)
                        &&& forall|t: FStepTrace<B, E>|
                            #[trigger] self.f().traces(r, y.1, t) ==> call_requires(
                                self.xor_fn(),
                                (l, t.after_permute),
                            )
                    }
            }
    }

    /// A network whose parts and key step accept every input accepts every
    /// run.
    pub proof fn lemma_total_accepts_run<KS, St: Fn(KS, usize) -> (KS, E)>(
        &self,
        left: B,
        right: B,
        step: St,
        start: int,
        s0: KS,
    )
        requires
            self.f().total(),
            self.xor_total(),
            forall|s: KS, n: usize| #[trigger] call_requires(step, (s, n)),
        ensures
            self.accepts_run(left, right, step, start, s0),
    {
        assert forall|h: Seq<FeistelRoundState<B, E>>, ks: Seq<KS>, l: B, r: B|
            #[trigger] self.run_prefix(left, right, step, start, s0, h, ks, l, r) && h.len() < self.rounds() implies {
                &&& call_requires(step, (ks.last(), (start + h.len()) as usize))
                &&& forall|y: (KS, E)|
                    #[trigger] call_ensures(step, (ks.last(), (start + h.len()) as usize), y) ==> {
                        &&& self.f().accepts(r, y.1)
                        &&& forall|t: FStepTrace<B, E>|
                            #[trigger] self.f().traces(r, y.1, t) ==> call_requires(
                                self.xor_fn(),
                                (l, t.after_permute),
                            )
                    }
            } by {
            assert forall|y: (KS, E)|
                #[trigger] call_ensures(step, (ks.last(), (start + h.len()) as usize), y) implies {
                    &&& self.f().accepts(r, y.1)
                    &&& forall|t: FStepTrace<B, E>|
                        #[trigger] self.f().traces(r, y.1, t) ==> call_requires(self.xor_fn(), (l, t.after_permute))
                } by {
                self.f().lemma_total_accepts(r, y.1);
            }
        }
    }

    /// Runs every round on the halves `left` and `right`, drawing one key
    /// per round from `key_schedule`; records the state of each round and
    /// returns the final halves.
    pub fn run<KS, St>(&mut self, left: B, right: B, key_schedule: &mut RoundKeys<'_, KS, E, St>) -> (r: (B, B))
        where St: Fn(KS, usize) -> (KS, E),
        requires
            old(key_schedule).wf(),
            old(key_schedule).round() + old(self).rounds() <= usize::MAX,
            old(self).accepts_run(
                left,
                right,
                old(key_schedule).step_fn(),
                old(key_schedule).round() as int,
                old(key_schedule).state(),
            ),
        ensures
            final(self).xor_fn() == old(self).xor_fn(),
            final(self).f() == old(self).f(),
            final(self).rounds() == old(self).rounds(),
            final(self).runs(left, right, final(self).history(), r),
            final(key_schedule).wf(),
            final(key_schedule).step_fn() == old(key_schedule).step_fn(),
            final(key_schedule).round() == old(key_schedule).round() + old(self).rounds(),
            exists|ks: Seq<KS>|
                {
                    &&& schedule_run(
                        old(key_schedule).step_fn(),
                        ks,
                        old(key_schedule).round() as int,
                        final(self).history().map_values(|e: FeistelRoundState<B, E>| e.round_key),
                    )
                    &&& ks[0] == old(key_schedule).state()
                    &&& ks.last() == final(key_schedule).state()
                },
    {
        self.history.clear();
        let mut l = left;
        let mut r = right;
        let ghost start = key_schedule.round() as int;
        let ghost mut ks: Seq<KS> = seq![key_schedule.state()];
        let mut round: usize = 0;
        while round < self.rounds
            invariant
                self.f() == old(self).f(),
                self.xor_fn() == old(self).xor_fn(),
                self.rounds() == old(self).rounds(),
                old(self).accepts_run(left, right, old(key_schedule).step_fn(), start, old(key_schedule).state()),
                round <= self.rounds(),
                self.history().len() == round,
                forall|i: int| 0 <= i < round ==> #[trigger] round_entry(self.f(), self.history(), i),
                forall|i: int| 0 < i < round ==> #[trigger] round_link(self.xor_fn(), self.history(), i),
                round == 0 ==> l == left && r == right,
                round > 0 ==> self.history()[0].left == left && self.history()[0].right == right,
                round > 0 ==> l == self.history()[round - 1].right,
                round > 0 ==> call_ensures(
                    self.xor_fn(),
                    (self.history()[round - 1].left, self.history()[round - 1].f_trace.after_permute),
                    r,
                ),
                key_schedule.wf(),
                key_schedule.step_fn() == old(key_schedule).step_fn(),
                key_schedule.round() == start + round,
                start == old(key_schedule).round(),
                start + self.rounds() <= usize::MAX,
                schedule_run(
                    key_schedule.step_fn(),
                    ks,
                    start,
                    self.history().map_values(|e: FeistelRoundState<B, E>| e.round_key),
                ),
                ks[0] == old(key_schedule).state(),
                ks.last() == key_schedule.state(),
            decreases self.rounds() - round,
        {
            let ghost before = self.history();
            let ghost step = key_schedule.step_fn();
            let ghost s_before = key_schedule.state();
            proof {
                assert(old(self).run_prefix(left, right, step, start, old(key_schedule).state(), before, ks, l, r));
                assert(ks.last() == s_before);
            }
            let round_key = key_schedule.next();
            proof {
                assert(call_ensures(step, (ks.last(), (start + before.len()) as usize), (key_schedule.state(), round_key)));
            }
            let (f_out, f_trace) = self.f.call(r, round_key);
            let new_r = (self.xor)(l, f_out);
            self.history.push(FeistelRoundState { round, left: l, right: r, round_key, f_trace });
            proof {
                let h = self.history();
                assert(h == before.push(h[round as int]));
                assert forall|i: int| 0 <= i < round + 1 implies #[trigger] round_entry(self.f(), h, i) by {
                    if i < round {
                        assert(round_entry(self.f(), before, i));
                    }
                }
                assert forall|i: int| 0 < i < round + 1 implies #[trigger] round_link(self.xor_fn(), h, i) by {
                    if i < round {
                        assert(round_link(self.xor_fn(), before, i));
                    }
                }
                let keys_before = before.map_values(|e: FeistelRoundState<B, E>| e.round_key);
                let keys = h.map_values(|e: FeistelRoundState<B, E>| e.round_key);
                let ks2 = ks.push(key_schedule.state());
                assert(keys == keys_before.push(round_key));
                assert forall|i: int| 0 <= i < keys.len() implies #[trigger] call_ensures(
                    key_schedule.step_fn(),
                    (ks2[i], (start + i) as usize),
                    (ks2[i + 1], keys[i]),
                ) by {
                    if i < round {
                        assert(call_ensures(
                            key_schedule.step_fn(),
                            (ks[i], (start + i) as usize),
                            (ks[i + 1], keys_before[i]),
                        ));
                    }
                }
                ks = ks2;
            }
            l = r;
            r = new_r;
            round = round + 1;
        }
        (l, r)
    }

    /// The round states recorded by the last run.
    pub fn get_history(&self) -> (r: &[FeistelRoundState<B, E>])
        ensures
            r@ == self.history(),
    {
        self.history.as_slice()
    }
}

/// Collects the parts of a Feistel network; 16 rounds unless set otherwise.
pub struct FeistelBuilder<B: Copy, E: Copy, XO, X, K, S, P> {
    xor: Option<XO>,
    f: Option<FeistelF<B, E, X, K, S, P>>,
    rounds: usize,
}

impl<B: Copy, E: Copy, XO, X, K, S, P> FeistelBuilder<B, E, XO, X, K, S, P> {
    pub closed spec fn xor_opt(&self) -> Option<XO> {
        self.xor
    }

    pub closed spec fn f_opt(&self) -> Option<FeistelF<B, E, X, K, S, P>> {
        self.f
    }

    pub closed spec fn rounds_count(&self) -> usize {
        self.rounds
    }
}

impl<B: Copy, E: Copy, XO, X, K, S, P> FeistelBuilder<B, E, XO, X, K, S, P> where
    XO: Fn(B, B) -> B,
    X: Fn(B) -> E,
    K: Fn(E, E) -> E,
    S: Fn(E) -> B,
    P: Fn(B) -> B,
 {
    /// A builder with no parts configured and 16 rounds.
    pub fn new() -> (r: Self)
        ensures
            r.xor_opt() is None,
            r.f_opt() is None,
            r.rounds_count() == 16,
    {
        Self { xor: None, f: None, rounds: 16 }
    }

    /// Sets the function that combines the left half with the f output.
    pub fn xor(self, f: XO) -> (r: Self)
        ensures
            r.xor_opt() == Some(f),
            r.f_opt() == self.f_opt(),
            r.rounds_count() == self.rounds_count(),
    {
        let mut b = self;
        b.xor = Some(f);
        b
    }

    /// Sets the f-function.
    pub fn f(self, f: FeistelF<B, E, X, K, S, P>) -> (r: Self)
        ensures
            r.xor_opt() == self.xor_opt(),
            r.f_opt() == Some(f),
            r.rounds_count() == self.rounds_count(),
    {
        let mut b = self;
        b.f = Some(f);
        b
    }

    /// Sets the number of rounds.
    pub fn rounds(self, n: usize) -> (r: Self)
        ensures
            r.xor_opt() == self.xor_opt(),
            r.f_opt() == self.f_opt(),
            r.rounds_count() == n,
    {
        let mut b = self;
        b.rounds = n;
        b
    }

    /// The network made of the configured parts, with an empty history;
    /// the combining function and the f-function must be set.
    pub fn build(self) -> (r: Feistel<B, E, XO, X, K, S, P>)
        requires
            self.xor_opt() is Some,
            self.f_opt() is Some,
        ensures
            r.xor_fn() == self.xor_opt()->Some_0,
            r.f() == self.f_opt()->Some_0,
            r.rounds() == self.rounds_count(),
            r.history() == Seq::<FeistelRoundState<B, E>>::empty(),
    {
        Feistel { xor: self.xor.unwrap(), f: self.f.unwrap(), rounds: self.rounds, history: Vec::new() }
    }
}

} // verus!
