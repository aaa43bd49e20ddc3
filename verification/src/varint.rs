//! QUIC variable-length integers: the minimal encoding of a value below
//! 2^62, and an incremental decoder that tolerates bytes arriving one at a
//! time. The length of an encoding (1, 2, 4 or 8 bytes) is read off the top
//! two bits of its first byte.

use vstd::prelude::*;

verus! {

/// Largest value a variable-length integer can carry.
pub const VARINT_MAX: u64 = 0x3fff_ffff_ffff_ffff;

/// Length in bytes of the minimal encoding of `v`.
pub open spec fn vi_len(v: u64) -> nat {
    if v < 0x40 {
        1
    } else if v < 0x4000 {
        2
    } else if v < 0x4000_0000 {
        4
    } else {
        8
    }
}

/// Length in bytes of an encoding whose first byte is `b`.
pub open spec fn vi_size_of_first(b: u8) -> nat {
    if b < 0x40 {
        1
    } else if b < 0x80 {
        2
    } else if b < 0xc0 {
        4
    } else {
        8
    }
}

/// The minimal encoding of `v` (meaningful for `v <= VARINT_MAX`).
pub open spec fn vi_enc(v: u64) -> Seq<u8> {
    if v < 0x40 {
        seq![v as u8]
    } else if v < 0x4000 {
        let t = (v + 0x4000) as u64;
        seq![(t / 0x100) as u8, (t % 0x100) as u8]
    } else if v < 0x4000_0000 {
        let t = (v + 0x8000_0000) as u64;
        seq![
            (t / 0x100_0000) as u8,
            ((t / 0x1_0000) % 0x100) as u8,
            ((t / 0x100) % 0x100) as u8,
            (t % 0x100) as u8,
        ]
    } else {
        let t = v as nat + 0xc000_0000_0000_0000;
        seq![
            (t / 0x100_0000_0000_0000) as u8,
            ((t / 0x1_0000_0000_0000) % 0x100) as u8,
            ((t / 0x100_0000_0000) % 0x100) as u8,
            ((t / 0x1_0000_0000) % 0x100) as u8,
            ((t / 0x100_0000) % 0x100) as u8,
            ((t / 0x1_0000) % 0x100) as u8,
            ((t / 0x100) % 0x100) as u8,
            (t % 0x100) as u8,
        ]
    }
}

/// The value accumulated from the bytes of an encoding read so far: the low
/// six bits of the first byte, then each further byte in base 256. On a
/// whole encoding this is the decoded value.
pub open spec fn vi_acc(s: Seq<u8>) -> nat
    decreases s.len(),
{
    if s.len() == 0 {
        0
    } else if s.len() == 1 {
        (s[0] % 0x40) as nat
    } else {
        (vi_acc(s.drop_last()) * 0x100 + s.last()) as nat
    }
}

/// The value carried by a whole encoding `s` (one whose length matches its
/// first byte).
pub open spec fn vi_dec(s: Seq<u8>) -> u64 {
    vi_acc(s) as u64
}

/// `vi_acc` of a prefix of an encoding stays below 64 * 256^(len-1), so the
/// accumulator of an incremental decoder fits in a `u64`.
pub proof fn lemma_vi_acc_bound(s: Seq<u8>)
    requires
        s.len() <= 8,
    ensures
        s.len() >= 1 ==> vi_acc(s) < 0x40 * vstd::arithmetic::power::pow(0x100, (s.len() - 1) as nat),
        vi_acc(s) <= VARINT_MAX,
    decreases s.len(),
{
    vstd::arithmetic::power::lemma_pow_positive(0x100, (s.len() - 1) as nat);
    if s.len() == 0 {
    } else if s.len() == 1 {
    } else {
        lemma_vi_acc_bound(s.drop_last());
        let p = vstd::arithmetic::power::pow(0x100, (s.len() - 2) as nat);
        assert(vstd::arithmetic::power::pow(0x100, (s.len() - 1) as nat) == 0x100 * p) by {
            vstd::arithmetic::power::lemma_pow1(0x100);
            vstd::arithmetic::power::lemma_pow_adds(0x100, 1, (s.len() - 2) as nat);
        }
        assert(vi_acc(s.drop_last()) * 0x100 + s.last() < 0x40 * (0x100 * p)) by (nonlinear_arith)
            requires
                vi_acc(s.drop_last()) < 0x40 * p,
                s.last() < 0x100,
                p >= 1,
        ;
        assert(0x40 * vstd::arithmetic::power::pow(0x100, (s.len() - 1) as nat)
            <= 0x40 * vstd::arithmetic::power::pow(0x100, 7)) by {
            vstd::arithmetic::power::lemma_pow_increases(0x100, (s.len() - 1) as nat, 7);
        }
        assert(vstd::arithmetic::power::pow(0x100, 7) == 0x100_0000_0000_0000) by {
            reveal_with_fuel(vstd::arithmetic::power::pow, 8);
        }
    }
}

/// One Horner step: folding the next base-256 digit of `t` into an
/// accumulator that holds `t / (w * 0x100)` modulo `m` yields `t / w` modulo
/// `m * 0x100`.
proof fn lemma_acc_step(t: int, w: int, m: int)
    requires
        0 <= t,
        1 <= w,
        1 <= m,
    ensures
        ((t / (w * 0x100)) % m) * 0x100 + (t / w) % 0x100 == (t / w) % (m * 0x100),
{
    vstd::arithmetic::div_mod::lemma_div_denominator(t, w, 0x100);
    vstd::arithmetic::div_mod::lemma_breakdown(t / w, 0x100, m);
}

/// Decoding inverts encoding: the bytes of `vi_enc(v)` accumulate back to
/// `v`, their count is `vi_len(v)`, and the first byte announces that count.
pub proof fn lemma_vi_roundtrip(v: u64)
    requires
        v <= VARINT_MAX,
    ensures
        vi_enc(v).len() == vi_len(v),
        vi_size_of_first(vi_enc(v)[0]) == vi_len(v),
        vi_dec(vi_enc(v)) == v,
{
    let s = vi_enc(v);
    if v < 0x40 {
        assert(vi_acc(s) == v);
    } else if v < 0x4000 {
        let t = (v + 0x4000) as int;
        vstd::arithmetic::div_mod::lemma_fundamental_div_mod(t, 0x100);
        assert(0x40 <= t / 0x100 < 0x80);
        let s1 = s.drop_last();
        assert(s1 =~= seq![(t / 0x100) as u8]);
        assert(vi_acc(s1) == (t / 0x100) % 0x40);
        assert(vi_acc(s) == vi_acc(s1) * 0x100 + t % 0x100);
        vstd::arithmetic::div_mod::lemma_breakdown(t, 0x100, 0x40);
        assert(vi_acc(s) == t % 0x4000);
        vstd::arithmetic::div_mod::lemma_mod_multiples_vanish(1, v as int, 0x4000);
        vstd::arithmetic::div_mod::lemma_small_mod(v as nat, 0x4000);
    } else if v < 0x4000_0000 {
        let t = (v + 0x8000_0000) as int;
        vstd::arithmetic::div_mod::lemma_fundamental_div_mod(t, 0x100_0000);
        assert(0x80 <= t / 0x100_0000 < 0xc0);
        let s3 = s.drop_last();
        let s2 = s3.drop_last();
        let s1 = s2.drop_last();
        assert(s1 =~= seq![s[0]]);
        assert(s2 =~= seq![s[0], s[1]]);
        assert(s3 =~= seq![s[0], s[1], s[2]]);
        assert(vi_acc(s1) == (t / 0x100_0000) % 0x40);
        assert(vi_acc(s2) == vi_acc(s1) * 0x100 + (t / 0x1_0000) % 0x100);
        lemma_acc_step(t, 0x1_0000, 0x40);
        assert(vi_acc(s2) == (t / 0x1_0000) % 0x4000);
        assert(vi_acc(s3) == vi_acc(s2) * 0x100 + (t / 0x100) % 0x100);
        lemma_acc_step(t, 0x100, 0x4000);
        assert(vi_acc(s3) == (t / 0x100) % 0x40_0000);
        assert(vi_acc(s) == vi_acc(s3) * 0x100 + t % 0x100);
        vstd::arithmetic::div_mod::lemma_breakdown(t, 0x100, 0x40_0000);
        assert(vi_acc(s) == t % 0x4000_0000);
        vstd::arithmetic::div_mod::lemma_mod_multiples_vanish(2, v as int, 0x4000_0000);
        vstd::arithmetic::div_mod::lemma_small_mod(v as nat, 0x4000_0000);
    } else {
        let t = (v as nat + 0xc000_0000_0000_0000) as int;
        vstd::arithmetic::div_mod::lemma_fundamental_div_mod(t, 0x100_0000_0000_0000);
        assert(0xc0 <= t / 0x100_0000_0000_0000 < 0x100);
        let s7 = s.drop_last();
        let s6 = s7.drop_last();
        let s5 = s6.drop_last();
        let s4 = s5.drop_last();
        let s3 = s4.drop_last();
        let s2 = s3.drop_last();
        let s1 = s2.drop_last();
        assert(s1 =~= seq![s[0]]);
        assert(s2 =~= seq![s[0], s[1]]);
        assert(s3 =~= seq![s[0], s[1], s[2]]);
        assert(s4 =~= seq![s[0], s[1], s[2], s[3]]);
        assert(s5 =~= seq![s[0], s[1], s[2], s[3], s[4]]);
        assert(s6 =~= seq![s[0], s[1], s[2], s[3], s[4], s[5]]);
        assert(s7 =~= seq![s[0], s[1], s[2], s[3], s[4], s[5], s[6]]);
        assert(vi_acc(s1) == (t / 0x100_0000_0000_0000) % 0x40);
        assert(vi_acc(s2) == vi_acc(s1) * 0x100 + (t / 0x1_0000_0000_0000) % 0x100);
        lemma_acc_step(t, 0x1_0000_0000_0000, 0x40);
        assert(vi_acc(s2) == (t / 0x1_0000_0000_0000) % 0x4000);
        assert(vi_acc(s3) == vi_acc(s2) * 0x100 + (t / 0x100_0000_0000) % 0x100);
        lemma_acc_step(t, 0x100_0000_0000, 0x4000);
        assert(vi_acc(s3) == (t / 0x100_0000_0000) % 0x40_0000);
        assert(vi_acc(s4) == vi_acc(s3) * 0x100 + (t / 0x1_0000_0000) % 0x100);
        lemma_acc_step(t, 0x1_0000_0000, 0x40_0000);
        assert(vi_acc(s4) == (t / 0x1_0000_0000) % 0x4000_0000);
        assert(vi_acc(s5) == vi_acc(s4) * 0x100 + (t / 0x100_0000) % 0x100);
        lemma_acc_step(t, 0x100_0000, 0x4000_0000);
        assert(vi_acc(s5) == (t / 0x100_0000) % 0x40_0000_0000);
        assert(vi_acc(s6) == vi_acc(s5) * 0x100 + (t / 0x1_0000) % 0x100);
        lemma_acc_step(t, 0x1_0000, 0x40_0000_0000);
        assert(vi_acc(s6) == (t / 0x1_0000) % 0x4000_0000_0000);
        assert(vi_acc(s7) == vi_acc(s6) * 0x100 + (t / 0x100) % 0x100);
        lemma_acc_step(t, 0x100, 0x4000_0000_0000);
        assert(vi_acc(s7) == (t / 0x100) % 0x40_0000_0000_0000);
        assert(vi_acc(s) == vi_acc(s7) * 0x100 + t % 0x100);
        vstd::arithmetic::div_mod::lemma_breakdown(t, 0x100, 0x40_0000_0000_0000);
        assert(vi_acc(s) == t % 0x4000_0000_0000_0000);
        vstd::arithmetic::div_mod::lemma_mod_multiples_vanish(3, v as int, 0x4000_0000_0000_0000);
        vstd::arithmetic::div_mod::lemma_small_mod(v as nat, 0x4000_0000_0000_0000);
    }
}

/// Appends the minimal encoding of `v` to `out`.
pub fn encode_varint(v: u64, out: &mut Vec<u8>)
    requires
        v <= VARINT_MAX,
    ensures
        final(out)@ == old(out)@ + vi_enc(v),
{
    if v < 0x40 {
        out.push(v as u8);
        assert(final(out)@ =~= old(out)@ + vi_enc(v));
    } else if v < 0x4000 {
        let t = v + 0x4000;
        out.push((t / 0x100) as u8);
        out.push((t % 0x100) as u8);
        assert(final(out)@ =~= old(out)@ + vi_enc(v));
    } else if v < 0x4000_0000 {
        let t = v + 0x8000_0000;
        out.push((t / 0x100_0000) as u8);
        out.push(((t / 0x1_0000) % 0x100) as u8);
        out.push(((t / 0x100) % 0x100) as u8);
        out.push((t % 0x100) as u8);
        assert(final(out)@ =~= old(out)@ + vi_enc(v));
    } else {
        let t = v + 0xc000_0000_0000_0000;
        out.push((t / 0x100_0000_0000_0000) as u8);
        out.push(((t / 0x1_0000_0000_0000) % 0x100) as u8);
        out.push(((t / 0x100_0000_0000) % 0x100) as u8);
        out.push(((t / 0x1_0000_0000) % 0x100) as u8);
        out.push(((t / 0x100_0000) % 0x100) as u8);
        out.push(((t / 0x1_0000) % 0x100) as u8);
        out.push(((t / 0x100) % 0x100) as u8);
        out.push((t % 0x100) as u8);
        assert(final(out)@ =~= old(out)@ + vi_enc(v));
    }
}

/// An incremental variable-length-integer decoder. Feed it bytes one at a
/// time; it yields the value as soon as the whole encoding has arrived and
/// then resets itself for the next one.
pub struct VarintDecoder {
    started: bool,
    size: u8,
    got: u8,
    acc: u64,
    fed: Ghost<Seq<u8>>,
}

impl VarintDecoder {
    /// The bytes consumed since the last reset (empty right after a value
    /// was produced).
    pub closed spec fn fed(self) -> Seq<u8> {
        self.fed@
    }

    pub closed spec fn wf(self) -> bool {
        if self.started {
            &&& 1 <= self.got < self.size
            &&& self.fed@.len() == self.got
            &&& self.size == vi_size_of_first(self.fed@[0])
            &&& self.acc == vi_acc(self.fed@)
            &&& self.fed@.len() <= 8
        } else {
            self.fed@.len() == 0
        }
    }

    pub fn new() -> (d: Self)
        ensures
            d.wf(),
            d.fed() == Seq::<u8>::empty(),
    {
        VarintDecoder { started: false, size: 0, got: 0, acc: 0, fed: Ghost(Seq::empty()) }
    }

    /// Whether nothing has been fed since the last reset.
    pub fn is_fresh(&self) -> (r: bool)
        requires
            self.wf(),
        ensures
            r == (self.fed().len() == 0),
    {
        !self.started
    }

    /// How many more bytes must arrive before `consume` can possibly produce
    /// a value.
    pub fn min_remaining(&self) -> (n: usize)
        requires
            self.wf(),
        ensures
            n >= 1,
            self.fed().len() == 0 ==> n == 1,
            self.fed().len() > 0 ==> n == vi_size_of_first(self.fed()[0]) - self.fed().len(),
    {
        if self.started {
            (self.size - self.got) as usize
        } else {
            1
        }
    }

    /// Feed one byte. Returns the decoded value once the bytes fed since the
    /// last reset form a whole encoding, and resets; otherwise remembers the
    /// byte and returns `None`.
    pub fn consume(&mut self, b: u8) -> (r: Option<u64>)
        requires
            old(self).wf(),
        ensures
            final(self).wf(),
            ({
                let s = old(self).fed().push(b);
                if s.len() == vi_size_of_first(s[0]) {
                    &&& r == Some(vi_dec(s))
                    &&& final(self).fed() == Seq::<u8>::empty()
                } else {
                    &&& r is None
                    &&& final(self).fed() == s
                }
            }),
    {
        proof {
            lemma_vi_acc_bound(old(self).fed());
        }
        if !self.started {
            let size: u8 = if b < 0x40 {
                1
            } else if b < 0x80 {
                2
            } else if b < 0xc0 {
                4
            } else {
                8
            };
            let acc = (b % 0x40) as u64;
            let ghost s1 = self.fed@.push(b);
            proof {
                assert(s1 =~= seq![b]);
            }
            if size == 1 {
                self.fed = Ghost(Seq::empty());
                self.started = false;
                self.got = 0;
                self.acc = 0;
                Some(acc)
            } else {
                self.started = true;
                self.size = size;
                self.got = 1;
                self.acc = acc;
                self.fed = Ghost(s1);
                None
            }
        } else {
            let ghost s = self.fed@.push(b);
            proof {
                assert(s.drop_last() =~= self.fed@);
                lemma_vi_acc_bound(self.fed@);
                assert(vstd::arithmetic::power::pow(0x100, (self.fed@.len() - 1) as nat)
                    <= vstd::arithmetic::power::pow(0x100, 6)) by {
                    vstd::arithmetic::power::lemma_pow_increases(
                        0x100,
                        (self.fed@.len() - 1) as nat,
                        6,
                    );
                }
                assert(vstd::arithmetic::power::pow(0x100, 6) == 0x1_0000_0000_0000) by {
                    reveal_with_fuel(vstd::arithmetic::power::pow, 7);
                }
                assert(self.acc < 0x40 * 0x1_0000_0000_0000);
            }
            let acc = self.acc * 0x100 + (b as u64);
            let got = self.got + 1;
            if got == self.size {
                self.started = false;
                self.got = 0;
                self.acc = 0;
                self.fed = Ghost(Seq::empty());
                Some(acc)
            } else {
                self.acc = acc;
                self.got = got;
                self.fed = Ghost(s);
                None
            }
        }
    }
}

} // verus!
