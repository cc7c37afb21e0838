//! DES assembled from the generic Feistel network: initial permutation,
//! split into halves, the rounds, recombination and final permutation, with
//! a trace entry for every stage.
use crate::blockcipher::feistel::{
    lemma_schedule_run_unique, round_entry, schedule_run, step_deterministic, Feistel, FeistelBuilder,
    FeistelF, FeistelRoundState, KeySchedule,
};
use crate::display::{digits, push_digits};
use vstd::prelude::*;

pub mod nist_des;

verus! {

/// The two 28-bit halves of a DES key-schedule register.
#[derive(Clone, Copy)]
pub struct LRKey {
    pub left: u32,
    pub right: u32,
}

/// The word holding `k`'s halves: `left` shifted up 28 bits, or-ed with
/// `right`.
pub open spec fn packed(k: LRKey) -> u64 {
    ((k.left as u64) << 28u64) | (k.right as u64)
}

/// The halves read from a word: `left` is the word shifted down 28 bits and
/// `right` its low 32 bits, both cut to 32 bits.
pub open spec fn unpacked(x: u64) -> LRKey {
    LRKey { left: (x >> 28u64) as u32, right: x as u32 }
}

impl LRKey {
    /// The halves packed into one word: `left` above bit 28, `right` below.
    pub fn to_u64(&self) -> (r: u64)
        ensures
            r == packed(*self),
            self.right < 0x1000_0000 ==> r == self.left * 0x1000_0000 + self.right,
    {
        let l: u64 = self.left as u64;
        let rt: u64 = self.right as u64;
        proof {
            if rt < 0x1000_0000 {
                assert((l << 28u64) | rt == l * 0x1000_0000 + rt) by (bit_vector)
                    requires
                        l < 0x1_0000_0000,
                        rt < 0x1000_0000,
                ;
            }
        }
        (l << 28u64) | rt
    }

    /// Splits a word into halves (see `unpacked`).
    pub fn from_u64(input: u64) -> (r: Self)
        ensures
            r == unpacked(input),
            r.left == (input / 0x1000_0000) % 0x1_0000_0000,
            r.right == input % 0x1_0000_0000,
    {
        proof {
            assert((input >> 28u64) as u32 == (input / 0x1000_0000) % 0x1_0000_0000) by (bit_vector);
            assert(input as u32 == input % 0x1_0000_0000) by (bit_vector);
        }
        Self { left: (input >> 28u64) as u32, right: input as u32 }
    }
}

impl LRKey {
    /// The debug rendering: both halves as `0x` and at least seven hex digits.
    pub fn debug_string(&self) -> (r: String)
        ensures
            r@ == "LRKey { left: 0x"@ + digits(self.left as nat, 16, 7) + ", right: 0x"@
                + digits(self.right as nat, 16, 7) + " }"@,
    {
        let mut s = String::from_str("LRKey { left: 0x");
        push_digits(&mut s, self.left as u64, 16, 7);
        s.append(", right: 0x");
        push_digits(&mut s, self.right as u64, 16, 7);
        s.append(" }");
        s
    }
}

/// Splitting a word and packing the halves again gives the word back
/// exactly when the word is below `2^60`.
pub proof fn lemma_lrkey_unpack_then_pack(x: u64)
    ensures
        packed(unpacked(x)) == x <==> x < 0x1000_0000_0000_0000,
{
    assert(((((x >> 28u64) as u32) as u64) << 28u64) | ((x as u32) as u64) == x <==> x
        < 0x1000_0000_0000_0000) by (bit_vector);
}

/// Packing two halves and splitting the word again gives the halves back
/// exactly when the low four bits of `left` equal the bits of `right` above
/// bit 28 (in particular when `right` fits in 28 bits and `left` is a
/// multiple of 16).
pub proof fn lemma_lrkey_pack_then_unpack(k: LRKey)
    ensures
        unpacked(packed(k)) == k <==> k.left % 16 == k.right >> 28u32,
{
    let l = k.left;
    let r = k.right;
    assert(((((l as u64) << 28u64) | (r as u64)) >> 28u64) as u32 == l && (((l as u64) << 28u64) | (r as u64)) as u32 == r
        <==> l % 16 == r >> 28u32) by (bit_vector);
}

/// One stage of a DES encryption.
#[derive(Clone, Debug)]
pub enum DESTraceEntry {
    /// Initial permutation step.
    IP { input: u64, output: u64 },
    /// One Feistel round (contains the full f-function sub-step trace).
    Round(FeistelRoundState<u32, u64>),
    /// Final permutation step.
    FP { input: u64, output: u64 },
}

/// The stages of one encryption, in order.
pub type DESTrace = Vec<DESTraceEntry>;

/// Round `i` of a DES history follows from round `i - 1`: the right half
/// moves left, and the new right half is the old left half xor the
/// f-function output.
pub open spec fn des_link(h: Seq<FeistelRoundState<u32, u64>>, i: int) -> bool {
    &&& h[i].left == h[i - 1].right
    &&& h[i].right == h[i - 1].left ^ h[i - 1].f_trace.after_permute
}

/// The halves that come out of the rounds recorded in `h`, started on
/// `l0` and `r0`.
pub open spec fn des_output(h: Seq<FeistelRoundState<u32, u64>>, l0: u32, r0: u32) -> (u32, u32) {
    if h.len() == 0 {
        (l0, r0)
    } else {
        (h.last().right, h.last().left ^ h.last().f_trace.after_permute)
    }
}

/// Collects the parts of a DES: the permutations, the split and
/// recombination of halves, the key schedule and the f-function; 16 rounds
/// unless set otherwise.
pub struct DESBuilder<IP, IPI, SP, CO, KS, KI, KSt, X, K, S, P> {
    ip: Option<IP>,
    ip_inv: Option<IPI>,
    split: Option<SP>,
    combine: Option<CO>,
    key_schedule: Option<KeySchedule<u64, KS, u64, KI, KSt>>,
    f: Option<FeistelF<u32, u64, X, K, S, P>>,
    rounds: usize,
}

impl<IP, IPI, SP, CO, KS, KI, KSt, X, K, S, P> DESBuilder<IP, IPI, SP, CO, KS, KI, KSt, X, K, S, P> {
    pub closed spec fn ip_opt(&self) -> Option<IP> {
        self.ip
    }

    pub closed spec fn ip_inv_opt(&self) -> Option<IPI> {
        self.ip_inv
    }

    pub closed spec fn split_opt(&self) -> Option<SP> {
        self.split
    }

    pub closed spec fn combine_opt(&self) -> Option<CO> {
        self.combine
    }

    pub closed spec fn key_schedule_opt(&self) -> Option<KeySchedule<u64, KS, u64, KI, KSt>> {
        self.key_schedule
    }

    pub closed spec fn f_opt(&self) -> Option<FeistelF<u32, u64, X, K, S, P>> {
        self.f
    }

    pub closed spec fn rounds_count(&self) -> usize {
        self.rounds
    }

    /// Every part is configured.
    pub open spec fn complete(&self) -> bool {
        &&& self.ip_opt() is Some
        &&& self.ip_inv_opt() is Some
        &&& self.split_opt() is Some
        &&& self.combine_opt() is Some
        &&& self.key_schedule_opt() is Some
        &&& self.f_opt() is Some
    }
}

impl<IP, IPI, SP, CO, KS, KI, KSt, X, K, S, P> DESBuilder<IP, IPI, SP, CO, KS, KI, KSt, X, K, S, P> where
    IP: Fn(u64) -> u64,
    IPI: Fn(u64) -> u64,
    SP: Fn(u64) -> (u32, u32),
    CO: Fn(u32, u32) -> u64,
    KI: Fn(u64) -> KS,
    KSt: Fn(KS, usize) -> (KS, u64),
    X: Fn(u32) -> u64,
    K: Fn(u64, u64) -> u64,
    S: Fn(u64) -> u32,
    P: Fn(u32) -> u32,
 {
    /// A builder with no part configured and 16 rounds.
    pub fn new() -> (r: Self)
        ensures
            r.ip_opt() is None,
            r.ip_inv_opt() is None,
            r.split_opt() is None,
            r.combine_opt() is None,
            r.key_schedule_opt() is None,
            r.f_opt() is None,
            r.rounds_count() == 16,
    {
        Self {
            ip: None,
            ip_inv: None,
            split: None,
            combine: None,
            key_schedule: None,
            f: None,
            rounds: 16,
        }
    }

    /// Sets the initial permutation.
    pub fn ip(self, f: IP) -> (r: Self)
        ensures
            r.ip_opt() == Some(f),
            r.ip_inv_opt() == self.ip_inv_opt(),
            r.split_opt() == self.split_opt(),
            r.combine_opt() == self.combine_opt(),
            r.key_schedule_opt() == self.key_schedule_opt(),
            r.f_opt() == self.f_opt(),
            r.rounds_count() == self.rounds_count(),
    {
        let mut b = self;
        b.ip = Some(f);
        b
    }

    /// Sets the final (inverse initial) permutation.
    pub fn ip_inv(self, f: IPI) -> (r: Self)
        ensures
            r.ip_opt() == self.ip_opt(),
            r.ip_inv_opt() == Some(f),
            r.split_opt() == self.split_opt(),
            r.combine_opt() == self.combine_opt(),
            r.key_schedule_opt() == self.key_schedule_opt(),
            r.f_opt() == self.f_opt(),
            r.rounds_count() == self.rounds_count(),
    {
        let mut b = self;
        b.ip_inv = Some(f);
        b
    }

    /// Sets the split of a block into its left and right halves.
    pub fn split(self, f: SP) -> (r: Self)
        ensures
            r.ip_opt() == self.ip_opt(),
            r.ip_inv_opt() == self.ip_inv_opt(),
            r.split_opt() == Some(f),
            r.combine_opt() == self.combine_opt(),
            r.key_schedule_opt() == self.key_schedule_opt(),
            r.f_opt() == self.f_opt(),
            r.rounds_count() == self.rounds_count(),
    {
        let mut b = self;
        b.split = Some(f);
        b
    }

    /// Sets the recombination of two halves into a block.
    pub fn combine(self, f: CO) -> (r: Self)
        ensures
            r.ip_opt() == self.ip_opt(),
            r.ip_inv_opt() == self.ip_inv_opt(),
            r.split_opt() == self.split_opt(),
            r.combine_opt() == Some(f),
            r.key_schedule_opt() == self.key_schedule_opt(),
            r.f_opt() == self.f_opt(),
            r.rounds_count() == self.rounds_count(),
    {
        let mut b = self;
        b.combine = Some(f);
        b
    }

    /// Sets the key schedule.
    pub fn key_schedule(self, ks: KeySchedule<u64, KS, u64, KI, KSt>) -> (r: Self)
        ensures
            r.ip_opt() == self.ip_opt(),
            r.ip_inv_opt() == self.ip_inv_opt(),
            r.split_opt() == self.split_opt(),
            r.combine_opt() == self.combine_opt(),
            r.key_schedule_opt() == Some(ks),
            r.f_opt() == self.f_opt(),
            r.rounds_count() == self.rounds_count(),
    {
        let mut b = self;
        b.key_schedule = Some(ks);
        b
    }

    /// Sets the f-function.
    pub fn f(self, f: FeistelF<u32, u64, X, K, S, P>) -> (r: Self)
        ensures
            r.ip_opt() == self.ip_opt(),
            r.ip_inv_opt() == self.ip_inv_opt(),
            r.split_opt() == self.split_opt(),
            r.combine_opt() == self.combine_opt(),
            r.key_schedule_opt() == self.key_schedule_opt(),
            r.f_opt() == Some(f),
            r.rounds_count() == self.rounds_count(),
    {
        let mut b = self;
        b.f = Some(f);
        b
    }

    /// Sets the number of rounds.
    pub fn rounds(self, n: usize) -> (r: Self)
        ensures
            r.ip_opt() == self.ip_opt(),
            r.ip_inv_opt() == self.ip_inv_opt(),
            r.split_opt() == self.split_opt(),
            r.combine_opt() == self.combine_opt(),
            r.key_schedule_opt() == self.key_schedule_opt(),
            r.f_opt() == self.f_opt(),
            r.rounds_count() == n,
    {
        let mut b = self;
        b.rounds = n;
        b
    }

    /// The cipher made of the configured parts under `master_key`; every
    /// part must be set. The halves are combined by xor.
    pub fn build(self, master_key: u64) -> (r: DES<IP, IPI, SP, CO, KS, KI, KSt, X, K, S, P, impl Fn(u32, u32) -> u32>)
        requires
            self.complete(),
        ensures
            r.wf(),
            r.ip_fn() == self.ip_opt()->Some_0,
            r.ip_inv_fn() == self.ip_inv_opt()->Some_0,
            r.split_fn() == self.split_opt()->Some_0,
            r.combine_fn() == self.combine_opt()->Some_0,
            r.key_schedule() == self.key_schedule_opt()->Some_0,
            r.f() == self.f_opt()->Some_0,
            r.rounds() == self.rounds_count(),
            r.master_key() == master_key,
            r.history() == Seq::<FeistelRoundState<u32, u64>>::empty(),
    {
        let feistel = FeistelBuilder::new()
            .xor(|l: u32, r: u32| -> (o: u32)
                ensures
                    o == l ^ r,
                { l ^ r })
            .f(self.f.unwrap())
            .rounds(self.rounds)
            .build();
        DES {
            ip: self.ip.unwrap(),
            ip_inv: self.ip_inv.unwrap(),
            split: self.split.unwrap(),
            combine: self.combine.unwrap(),
            key_schedule: self.key_schedule.unwrap(),
            master_key,
            feistel,
        }
    }
}

/// A DES-shaped cipher under one master key; keeps the round states of its
/// last encryption.
pub struct DES<IP, IPI, SP, CO, KS, KI, KSt, X, K, S, P, XO> {
    ip: IP,
    ip_inv: IPI,
    split: SP,
    combine: CO,
    key_schedule: KeySchedule<u64, KS, u64, KI, KSt>,
    master_key: u64,
    feistel: Feistel<u32, u64, XO, X, K, S, P>,
}

impl<IP, IPI, SP, CO, KS, KI, KSt, X, K, S, P, XO> DES<IP, IPI, SP, CO, KS, KI, KSt, X, K, S, P, XO> {
    pub closed spec fn ip_fn(&self) -> IP {
        self.ip
    }

    pub closed spec fn ip_inv_fn(&self) -> IPI {
        self.ip_inv
    }

    pub closed spec fn split_fn(&self) -> SP {
        self.split
    }

    pub closed spec fn combine_fn(&self) -> CO {
        self.combine
    }

    pub closed spec fn key_schedule(&self) -> KeySchedule<u64, KS, u64, KI, KSt> {
        self.key_schedule
    }

    pub closed spec fn master_key(&self) -> u64 {
        self.master_key
    }

    pub closed spec fn f(&self) -> FeistelF<u32, u64, X, K, S, P> {
        self.feistel.f()
    }

    pub closed spec fn rounds(&self) -> usize {
        self.feistel.rounds()
    }

    /// The Feistel network that runs the rounds.
    pub closed spec fn network(&self) -> Feistel<u32, u64, XO, X, K, S, P> {
        self.feistel
    }

    /// The round states of the last encryption.
    pub closed spec fn history(&self) -> Seq<FeistelRoundState<u32, u64>> {
        self.feistel.history()
    }

    /// Everything but the recorded history is that of `other`.
    pub open spec fn same_config(&self, other: &Self) -> bool {
        &&& self.ip_fn() == other.ip_fn()
        &&& self.ip_inv_fn() == other.ip_inv_fn()
        &&& self.split_fn() == other.split_fn()
        &&& self.combine_fn() == other.combine_fn()
        &&& self.key_schedule() == other.key_schedule()
        &&& self.master_key() == other.master_key()
        &&& self.f() == other.f()
        &&& self.rounds() == other.rounds()
    }
}

impl<IP, IPI, SP, CO, KS, KI, KSt, X, K, S, P, XO> DES<IP, IPI, SP, CO, KS, KI, KSt, X, K, S, P, XO> where
    IP: Fn(u64) -> u64,
    IPI: Fn(u64) -> u64,
    SP: Fn(u64) -> (u32, u32),
    CO: Fn(u32, u32) -> u64,
    KI: Fn(u64) -> KS,
    KSt: Fn(KS, usize) -> (KS, u64),
    X: Fn(u32) -> u64,
    K: Fn(u64, u64) -> u64,
    S: Fn(u64) -> u32,
    P: Fn(u32) -> u32,
    XO: Fn(u32, u32) -> u32,
 {
    /// The halves of the network are combined by xor.
    pub closed spec fn wf(&self) -> bool {
        &&& forall|a: u32, b: u32| #[trigger] call_requires(self.feistel.xor_fn(), (a, b))
        &&& forall|a: u32, b: u32, o: u32| #[trigger] call_ensures(self.feistel.xor_fn(), (a, b), o) ==> o == a ^ b
    }

    /// Every supplied function accepts every input (the key schedule's
    /// starting function at least the master key).
    pub open spec fn accepts_all(&self) -> bool {
        &&& forall|x: u64| #[trigger] call_requires(self.ip_fn(), (x,))
        &&& forall|x: u64| #[trigger] call_requires(self.ip_inv_fn(), (x,))
        &&& forall|x: u64| #[trigger] call_requires(self.split_fn(), (x,))
        &&& forall|a: u32, b: u32| #[trigger] call_requires(self.combine_fn(), (a, b))
        &&& call_requires(self.key_schedule().init_fn(), (self.master_key(),))
        &&& forall|s: KS, n: usize| #[trigger] call_requires(self.key_schedule().step_fn(), (s, n))
        &&& self.f().total()
    }

    /// Every call an encryption of `plaintext` makes is accepted by its
    /// callee, on the values computed before it: the permutations, the
    /// split, the key schedule, the rounds and the recombination.
    pub open spec fn accepts(&self, plaintext: u64) -> bool {
        &&& call_requires(self.ip_fn(), (plaintext,))
        &&& call_requires(self.key_schedule().init_fn(), (self.master_key(),))
        &&& forall|ipo: u64|
            #[trigger] call_ensures(self.ip_fn(), (plaintext,), ipo) ==> {
                &&& call_requires(self.split_fn(), (ipo,))
                &&& forall|lr: (u32, u32)|
                    #[trigger] call_ensures(self.split_fn(), (ipo,), lr) ==> forall|s0: KS|
                        #[trigger] call_ensures(self.key_schedule().init_fn(), (self.master_key(),), s0) ==> {
                            &&& self.network().accepts_run(lr.0, lr.1, self.key_schedule().step_fn(), 0, s0)
                            &&& forall|h: Seq<FeistelRoundState<u32, u64>>, out: (u32, u32)|
                                #[trigger] self.network().runs(lr.0, lr.1, h, out) ==> {
                                    &&& call_requires(self.combine_fn(), (out.0, out.1))
                                    &&& forall|fpi: u64|
                                        #[trigger] call_ensures(self.combine_fn(), (out.0, out.1), fpi)
                                            ==> call_requires(self.ip_inv_fn(), (fpi,))
                                }
                        }
            }
    }

    /// A cipher whose parts accept every input accepts every plaintext.
    pub proof fn lemma_accepts_all(&self, plaintext: u64)
        requires
            self.wf(),
            self.accepts_all(),
        ensures
            self.accepts(plaintext),
    {
        assert forall|ipo: u64| #[trigger] call_ensures(self.ip_fn(), (plaintext,), ipo) implies {
            &&& call_requires(self.split_fn(), (ipo,))
            &&& forall|lr: (u32, u32)|
                #[trigger] call_ensures(self.split_fn(), (ipo,), lr) ==> forall|s0: KS|
                    #[trigger] call_ensures(self.key_schedule().init_fn(), (self.master_key(),), s0) ==> {
                        &&& self.network().accepts_run(lr.0, lr.1, self.key_schedule().step_fn(), 0, s0)
                        &&& forall|h: Seq<FeistelRoundState<u32, u64>>, out: (u32, u32)|
                            #[trigger] self.network().runs(lr.0, lr.1, h, out) ==> {
                                &&& call_requires(self.combine_fn(), (out.0, out.1))
                                &&& forall|fpi: u64|
                                    #[trigger] call_ensures(self.combine_fn(), (out.0, out.1), fpi)
                                        ==> call_requires(self.ip_inv_fn(), (fpi,))
                            }
                    }
        } by {
            assert forall|lr: (u32, u32), s0: KS|
                call_ensures(self.split_fn(), (ipo,), lr) && call_ensures(
                    self.key_schedule().init_fn(),
                    (self.master_key(),),
                    s0,
                ) implies self.network().accepts_run(lr.0, lr.1, self.key_schedule().step_fn(), 0, s0) by {
                self.network().lemma_total_accepts_run(lr.0, lr.1, self.key_schedule().step_fn(), 0, s0);
            }
        }
    }

    /// `h` are the rounds of this cipher started on the halves `l0`, `r0`.
    pub open spec fn rounds_from(&self, l0: u32, r0: u32, h: Seq<FeistelRoundState<u32, u64>>) -> bool {
        &&& h.len() == self.rounds()
        &&& forall|i: int| 0 <= i < h.len() ==> #[trigger] round_entry(self.f(), h, i)
        &&& forall|i: int| 0 < i < h.len() ==> #[trigger] des_link(h, i)
        &&& h.len() > 0 ==> h[0].left == l0 && h[0].right == r0
    }

    /// The block after the initial permutation, `ip_out`, splits into
    /// `l0` and `r0`; the rounds `h` start from them; and their output
    /// recombines into `fp_in`.
    pub open spec fn halves(
        &self,
        ip_out: u64,
        fp_in: u64,
        h: Seq<FeistelRoundState<u32, u64>>,
        l0: u32,
        r0: u32,
    ) -> bool {
        &&& call_ensures(self.split_fn(), (ip_out,), (l0, r0))
        &&& self.rounds_from(l0, r0, h)
        &&& call_ensures(self.combine_fn(), des_output(h, l0, r0), fp_in)
    }

    /// The round keys of `h` are those the key schedule gives for the
    /// master key, through the states `ks`.
    pub open spec fn keyed(&self, h: Seq<FeistelRoundState<u32, u64>>, ks: Seq<KS>) -> bool {
        &&& schedule_run(
            self.key_schedule().step_fn(),
            ks,
            0,
            h.map_values(|e: FeistelRoundState<u32, u64>| e.round_key),
        )
        &&& call_ensures(self.key_schedule().init_fn(), (self.master_key(),), ks[0])
    }

    /// The rounds recorded in a trace.
    pub open spec fn trace_rounds(&self, trace: Seq<DESTraceEntry>) -> Seq<FeistelRoundState<u32, u64>> {
        Seq::new(self.rounds() as nat, |i: int| trace[i + 1]->Round_0)
    }

    /// `trace` is a trace of this cipher encrypting `plaintext` into
    /// `ciphertext`: the initial permutation, one entry per round, and the
    /// final permutation.
    pub open spec fn encrypts(&self, plaintext: u64, ciphertext: u64, trace: Seq<DESTraceEntry>) -> bool {
        let n = self.rounds() as int;
        let h = self.trace_rounds(trace);
        &&& trace.len() == n + 2
        &&& trace[0] is IP
        &&& trace[0]->IP_input == plaintext
        &&& call_ensures(self.ip_fn(), (plaintext,), trace[0]->IP_output)
        &&& forall|i: int| 1 <= i <= n ==> #[trigger] trace[i] is Round
        &&& trace[n + 1] is FP
        &&& trace[n + 1]->FP_output == ciphertext
        &&& call_ensures(self.ip_inv_fn(), (trace[n + 1]->FP_input,), ciphertext)
        &&& exists|l0: u32, r0: u32| #[trigger] self.halves(trace[0]->IP_output, trace[n + 1]->FP_input, h, l0, r0)
        &&& exists|ks: Seq<KS>| #[trigger] self.keyed(h, ks)
    }

    /// Every supplied function gives one result per input.
    pub open spec fn deterministic(&self) -> bool {
        &&& forall|x: u64, y1: u64, y2: u64|
            #![trigger call_ensures(self.ip_fn(), (x,), y1), call_ensures(self.ip_fn(), (x,), y2)]
            call_ensures(self.ip_fn(), (x,), y1) && call_ensures(self.ip_fn(), (x,), y2) ==> y1 == y2
        &&& forall|x: u64, y1: u64, y2: u64|
            #![trigger call_ensures(self.ip_inv_fn(), (x,), y1), call_ensures(self.ip_inv_fn(), (x,), y2)]
            call_ensures(self.ip_inv_fn(), (x,), y1) && call_ensures(self.ip_inv_fn(), (x,), y2) ==> y1 == y2
        &&& forall|x: u64, y1: (u32, u32), y2: (u32, u32)|
            #![trigger call_ensures(self.split_fn(), (x,), y1), call_ensures(self.split_fn(), (x,), y2)]
            call_ensures(self.split_fn(), (x,), y1) && call_ensures(self.split_fn(), (x,), y2) ==> y1 == y2
        &&& forall|a: u32, b: u32, y1: u64, y2: u64|
            #![trigger call_ensures(self.combine_fn(), (a, b), y1), call_ensures(self.combine_fn(), (a, b), y2)]
            call_ensures(self.combine_fn(), (a, b), y1) && call_ensures(self.combine_fn(), (a, b), y2) ==> y1 == y2
        &&& forall|k: u64, y1: KS, y2: KS|
            #![trigger call_ensures(self.key_schedule().init_fn(), (k,), y1), call_ensures(self.key_schedule().init_fn(), (k,), y2)]
            call_ensures(self.key_schedule().init_fn(), (k,), y1) && call_ensures(self.key_schedule().init_fn(), (k,), y2)
                ==> y1 == y2
        &&& step_deterministic(self.key_schedule().step_fn())
        &&& self.f().deterministic()
    }

    proof fn lemma_des_rounds_agree(
        &self,
        l0: u32,
        r0: u32,
        h1: Seq<FeistelRoundState<u32, u64>>,
        h2: Seq<FeistelRoundState<u32, u64>>,
        i: int,
    )
        requires
            self.f().deterministic(),
            self.rounds_from(l0, r0, h1),
            self.rounds_from(l0, r0, h2),
            forall|j: int| 0 <= j < h1.len() ==> #[trigger] h1[j].round_key == h2[j].round_key,
            0 <= i < h1.len(),
        ensures
            h1[i] == h2[i],
        decreases i,
    {
        if i > 0 {
            self.lemma_des_rounds_agree(l0, r0, h1, h2, i - 1);
            assert(des_link(h1, i));
            assert(des_link(h2, i));
        }
        assert(round_entry(self.f(), h1, i));
        assert(round_entry(self.f(), h2, i));
        assert(h1[i].round_key == h2[i].round_key);
        self.f().lemma_trace_unique(h1[i].right, h1[i].round_key, h1[i].f_trace, h2[i].f_trace);
    }

    /// With deterministic parts, two ciphers of the same configuration
    /// encrypt a plaintext to the same ciphertext and the same trace; in
    /// particular, encrypting again gives what the first encryption gave.
    pub proof fn lemma_encrypts_unique(
        &self,
        other: &Self,
        plaintext: u64,
        c1: u64,
        t1: Seq<DESTraceEntry>,
        c2: u64,
        t2: Seq<DESTraceEntry>,
    )
        requires
            self.deterministic(),
            other.same_config(self),
            self.encrypts(plaintext, c1, t1),
            other.encrypts(plaintext, c2, t2),
        ensures
            c1 == c2,
            t1 == t2,
    {
        let n = self.rounds() as int;
        let h1 = self.trace_rounds(t1);
        let h2 = other.trace_rounds(t2);
        assert(other.trace_rounds(t2) == self.trace_rounds(t2));
        let ipo1 = t1[0]->IP_output;
        let ipo2 = t2[0]->IP_output;
        assert(ipo1 == ipo2);
        let fpi1 = t1[n + 1]->FP_input;
        let fpi2 = t2[n + 1]->FP_input;
        let (a0, b0) = choose|l0: u32, r0: u32| #[trigger] self.halves(ipo1, fpi1, h1, l0, r0);
        let (a1, b1) = choose|l0: u32, r0: u32| #[trigger] other.halves(ipo2, fpi2, h2, l0, r0);
        assert((a0, b0) == (a1, b1));
        let ks1 = choose|ks: Seq<KS>| #[trigger] self.keyed(h1, ks);
        let ks2 = choose|ks: Seq<KS>| #[trigger] other.keyed(h2, ks);
        let keys1 = h1.map_values(|e: FeistelRoundState<u32, u64>| e.round_key);
        let keys2 = h2.map_values(|e: FeistelRoundState<u32, u64>| e.round_key);
        assert(ks1[0] == ks2[0]);
        lemma_schedule_run_unique(self.key_schedule().step_fn(), ks1, keys1, ks2, keys2, 0);
        assert forall|j: int| 0 <= j < h1.len() implies #[trigger] h1[j].round_key == h2[j].round_key by {
            assert(keys1[j] == keys2[j]);
        }
        assert forall|j: int| 0 <= j < h1.len() implies h1[j] == h2[j] by {
            self.lemma_des_rounds_agree(a0, b0, h1, h2, j);
        }
        assert(h1 =~= h2);
        assert(des_output(h1, a0, b0) == des_output(h2, a1, b1));
        assert(fpi1 == fpi2);
        assert(c1 == c2);
        assert forall|j: int| 0 <= j < t1.len() implies t1[j] == t2[j] by {
            if 1 <= j <= n {
                assert(t1[j] is Round);
                assert(t2[j] is Round);
                assert(h1[j - 1] == t1[(j - 1) + 1]->Round_0);
                assert(h2[j - 1] == t2[(j - 1) + 1]->Round_0);
            }
        }
        assert(t1 =~= t2);
    }

    /// Encrypts `plaintext`, returning the ciphertext and the trace of every
    /// stage; the configuration is unchanged and the rounds of this
    /// encryption replace those recorded before.
    pub fn encrypt(&mut self, plaintext: u64) -> (r: (u64, DESTrace))
        requires
            old(self).wf(),
            old(self).accepts(plaintext),
        ensures
            final(self).wf(),
            final(self).same_config(old(self)),
            final(self).encrypts(plaintext, r.0, r.1@),
            final(self).history() == final(self).trace_rounds(r.1@),
    {
        let ip_out = (self.ip)(plaintext);
        assert(call_ensures(old(self).ip_fn(), (plaintext,), ip_out));
        let (l0, r0) = (self.split)(ip_out);
        assert(call_ensures(old(self).split_fn(), (ip_out,), (l0, r0)));
        let mut key_iter = self.key_schedule.for_key(self.master_key);
        let ghost s0 = key_iter.state();
        let ghost step = key_iter.step_fn();
        assert(call_ensures(old(self).key_schedule().init_fn(), (old(self).master_key(),), s0));
        assert(old(self).network().accepts_run(l0, r0, step, 0, s0));
        let (l_out, r_out) = self.feistel.run(l0, r0, &mut key_iter);
        assert(old(self).network().runs(l0, r0, self.feistel.history(), (l_out, r_out)));
        assert(self.combine_fn() == old(self).combine_fn());
        let fp_in = (self.combine)(l_out, r_out);
        assert(call_ensures(old(self).combine_fn(), (l_out, r_out), fp_in));
        let ciphertext = (self.ip_inv)(fp_in);

        let rounds = self.feistel.get_history();
        let mut trace: Vec<DESTraceEntry> = Vec::new();
        trace.push(DESTraceEntry::IP { input: plaintext, output: ip_out });
        let mut i: usize = 0;
        while i < rounds.len()
            invariant
                i <= rounds@.len(),
                trace@.len() == i + 1,
                trace@[0] == (DESTraceEntry::IP { input: plaintext, output: ip_out }),
                forall|j: int| 0 <= j < i ==> #[trigger] trace@[j + 1] == DESTraceEntry::Round(rounds@[j]),
            decreases rounds@.len() - i,
        {
            trace.push(DESTraceEntry::Round(rounds[i]));
            i += 1;
        }
        trace.push(DESTraceEntry::FP { input: fp_in, output: ciphertext });
        proof {
            let h = self.history();
            let n = self.rounds() as int;
            assert(h.len() == n);
            assert(self.trace_rounds(trace@) =~= h) by {
                assert forall|j: int| 0 <= j < n implies self.trace_rounds(trace@)[j] == h[j] by {
                    assert(trace@[j + 1] == DESTraceEntry::Round(rounds@[j]));
                }
            }
            assert forall|j: int| 1 <= j <= n implies #[trigger] trace@[j] is Round by {
                assert(trace@[(j - 1) + 1] == DESTraceEntry::Round(rounds@[j - 1]));
            }
            // the network's rounds are DES rounds: its halves are combined by xor
            assert forall|j: int| 0 < j < h.len() implies #[trigger] des_link(h, j) by {
                assert(crate::blockcipher::feistel::round_link(self.feistel.xor_fn(), h, j));
            }
            assert(des_output(h, l0, r0) == (l_out, r_out));
            assert(self.halves(ip_out, fp_in, h, l0, r0));
            let ks = choose|ks: Seq<KS>| {
                &&& schedule_run(
                    step,
                    ks,
                    0int,
                    h.map_values(|e: FeistelRoundState<u32, u64>| e.round_key),
                )
                &&& ks[0] == s0
                &&& ks.last() == key_iter.state()
            };
            assert(self.keyed(h, ks));
            let t = trace@;
            assert(t.len() == n + 2);
            assert(t[n + 1] == (DESTraceEntry::FP { input: fp_in, output: ciphertext }));
            assert(t[0]->IP_output == ip_out);
            assert(self.halves(t[0]->IP_output, t[n + 1]->FP_input, self.trace_rounds(t), l0, r0));
            assert(self.keyed(self.trace_rounds(t), ks));
        }
        (ciphertext, trace)
    }
}

} // verus!
