//! The hybrid logical clock that stamps events.

use crate::text::{
    chars_of, is_digit, lemma_lex_back, lemma_lex_front, lemma_padded_len, lemma_padded_sorts,
    lemma_padded_value, lex_lt, numeral, padded, padded_decimal, parse_u64, pow10,
};
use vstd::prelude::*;
use vstd::string::*;

verus! {

/// A Hybrid Logical Clock. Produces lexically-sortable timestamp strings of the
/// form `{physical:015}:{counter:06}:{device_id}`.
#[derive(Debug, PartialEq)]
#[verifier::ext_equal]
pub struct Hlc<S = String> {
    pub device_id: S,
    pub last_physical: u64,
    pub counter: u64,
}

impl View for Hlc {
    type V = Hlc<Seq<char>>;

    open spec fn view(&self) -> Hlc<Seq<char>> {
        Hlc {
            device_id: self.device_id@,
            last_physical: self.last_physical,
            counter: self.counter,
        }
    }
}

/// The stamp that a clock shows.
pub open spec fn stamp(c: Hlc<Seq<char>>) -> Seq<char> {
    padded(c.last_physical as nat, 15) + ":"@ + padded(c.counter as nat, 6) + ":"@ + c.device_id
}

/// The highest counter that a stamp has room for.
pub const LAST_COUNTER: u64 = 999_999;

/// Whether a clock can step: its counter has room, or its time has.
pub open spec fn can_step(c: Hlc<Seq<char>>) -> bool {
    c.counter < LAST_COUNTER || c.last_physical < u64::MAX
}

/// The clock one step on. A counter that is full carries into the time, so that stamps
/// keep their width.
pub open spec fn stepped(c: Hlc<Seq<char>>) -> Hlc<Seq<char>> {
    if c.counter < LAST_COUNTER {
        Hlc {
            device_id: c.device_id,
            last_physical: c.last_physical,
            counter: (c.counter + 1) as u64,
        }
    } else {
        Hlc {
            device_id: c.device_id,
            last_physical: (c.last_physical + 1) as u64,
            counter: 0,
        }
    }
}

/// Whether the clock can tick: physical time moved on, or the clock can step.
pub open spec fn can_tick(c: Hlc<Seq<char>>, now: u64) -> bool {
    now > c.last_physical || can_step(c)
}

/// The clock after a tick at physical time `now`.
pub open spec fn ticked(c: Hlc<Seq<char>>, now: u64) -> Hlc<Seq<char>> {
    if now > c.last_physical {
        Hlc { device_id: c.device_id, last_physical: now, counter: 0 }
    } else {
        stepped(c)
    }
}

/// The first colon at or after `from`, or the end of the text.
pub open spec fn colon(s: Seq<char>, from: int) -> int
    decreases s.len() - from,
{
    if from >= s.len() {
        s.len() as int
    } else if s[from] == ':' {
        from
    } else {
        colon(s, from + 1)
    }
}

/// A number read leniently: anything that is not one counts as 0.
pub open spec fn lenient(s: Seq<char>) -> u64 {
    match numeral(s) {
        Some(n) => n,
        None => 0,
    }
}

/// The physical part and the counter of a stamp.
pub open spec fn decoded(s: Seq<char>) -> (u64, u64) {
    let i = colon(s, 0);
    let phys = lenient(s.subrange(0, i));
    if i >= s.len() {
        (phys, 0)
    } else {
        (phys, lenient(s.subrange(i + 1, colon(s, i + 1))))
    }
}

/// The larger of two numbers.
pub open spec fn max(a: u64, b: u64) -> u64 {
    if a >= b {
        a
    } else {
        b
    }
}

/// The latest of the clock's reading, a remote stamp `r` and physical time `now`.
pub open spec fn joined(c: Hlc<Seq<char>>, r: (u64, u64), now: u64) -> Hlc<Seq<char>> {
    let m = max(max(now, c.last_physical), r.0);
    Hlc {
        device_id: c.device_id,
        last_physical: m,
        counter: max(
            if m == c.last_physical {
                c.counter
            } else {
                0
            },
            if m == r.0 {
                r.1
            } else {
                0
            },
        ),
    }
}

/// Whether physical time `now` is past both the clock's and the remote stamp's.
pub open spec fn past_both(c: Hlc<Seq<char>>, r: (u64, u64), now: u64) -> bool {
    now > c.last_physical && now > r.0
}

/// Whether the clock can merge a remote stamp `r` at physical time `now`.
pub open spec fn can_observe(c: Hlc<Seq<char>>, r: (u64, u64), now: u64) -> bool {
    past_both(c, r, now) || can_step(joined(c, r, now))
}

/// The clock after it saw a remote stamp `r` at physical time `now`.
pub open spec fn observed(c: Hlc<Seq<char>>, r: (u64, u64), now: u64) -> Hlc<Seq<char>> {
    if past_both(c, r, now) {
        Hlc { device_id: c.device_id, last_physical: now, counter: 0 }
    } else {
        stepped(joined(c, r, now))
    }
}

impl Hlc {
    /// A clock that has not ticked.
    pub fn new(device_id: &str) -> (r: Hlc)
        ensures
            r@ == (Hlc { device_id: device_id@, last_physical: 0, counter: 0 }),
    {
        Hlc { device_id: device_id.to_owned(), last_physical: 0, counter: 0 }
    }

    /// Advance the clock for a locally-authored event and return the stamp.
    pub fn tick(&mut self, physical_now: u64) -> (r: String)
        requires
            can_tick(old(self)@, physical_now),
        ensures
            final(self)@ == ticked(old(self)@, physical_now),
            r@ == stamp(ticked(old(self)@, physical_now)),
    {
        if physical_now > self.last_physical {
            self.last_physical = physical_now;
            self.counter = 0;
        } else {
            self.step();
        }
        self.encode()
    }

    fn step(&mut self)
        requires
            can_step(old(self)@),
        ensures
            final(self)@ == stepped(old(self)@),
    {
        if self.counter < LAST_COUNTER {
            self.counter = self.counter + 1;
        } else {
            self.last_physical = self.last_physical + 1;
            self.counter = 0;
        }
    }

    /// The stamp that the clock shows.
    pub fn encode(&self) -> (r: String)
        ensures
            r@ == stamp(self@),
    {
        padded_decimal(self.last_physical, 15).concat(":").concat(
            padded_decimal(self.counter, 6).as_str(),
        ).concat(":").concat(self.device_id.as_str())
    }

    /// Merge a remote event's stamp, keeping this clock ahead of it.
    pub fn observe(&mut self, remote_hlc: &str, physical_now: u64)
        requires
            can_observe(old(self)@, decoded(remote_hlc@), physical_now),
        ensures
            final(self)@ == observed(old(self)@, decoded(remote_hlc@), physical_now),
    {
        let (r_phys, r_ctr) = Self::decode(remote_hlc);
        self.merge(r_phys, r_ctr, physical_now);
    }

    /// Merges a remote stamp where the clock has room for it; says whether it had.
    pub fn try_observe(&mut self, remote_hlc: &str, physical_now: u64) -> (r: bool)
        ensures
            r == can_observe(old(self)@, decoded(remote_hlc@), physical_now),
            r ==> final(self)@ == observed(old(self)@, decoded(remote_hlc@), physical_now),
            !r ==> final(self)@ == old(self)@,
    {
        let (r_phys, r_ctr) = Self::decode(remote_hlc);
        let local: bool = self.last_physical == u64::MAX && self.counter >= LAST_COUNTER;
        let remote: bool = r_phys == u64::MAX && r_ctr >= LAST_COUNTER;
        if local || remote {
            return false;
        }
        self.merge(r_phys, r_ctr, physical_now);
        true
    }

    fn merge(&mut self, r_phys: u64, r_ctr: u64, physical_now: u64)
        requires
            can_observe(old(self)@, (r_phys, r_ctr), physical_now),
        ensures
            final(self)@ == observed(old(self)@, (r_phys, r_ctr), physical_now),
    {
        if physical_now > self.last_physical && physical_now > r_phys {
            self.last_physical = physical_now;
            self.counter = 0;
            return;
        }
        if r_phys > self.last_physical {
            self.last_physical = r_phys;
            self.counter = r_ctr;
        } else if r_phys == self.last_physical && r_ctr > self.counter {
            self.counter = r_ctr;
        }
        self.step();
    }

    /// The physical part and the counter of a stamp.
    pub fn decode(hlc: &str) -> (r: (u64, u64))
        ensures
            r == decoded(hlc@),
    {
        let cs = chars_of(hlc);
        let i: usize = find_colon(&cs, 0);
        let phys: u64 = match parse_u64(&cs, 0, i) {
            Some(n) => n,
            None => 0,
        };
        if i >= cs.len() {
            return (phys, 0);
        }
        let j: usize = find_colon(&cs, i + 1);
        let ctr: u64 = match parse_u64(&cs, i + 1, j) {
            Some(n) => n,
            None => 0,
        };
        (phys, ctr)
    }
}

fn find_colon(cs: &Vec<char>, from: usize) -> (r: usize)
    requires
        from <= cs@.len(),
    ensures
        r == colon(cs@, from as int),
        from <= r <= cs@.len(),
{
    let mut i: usize = from;
    while i < cs.len()
        invariant
            from <= i <= cs@.len(),
            colon(cs@, i as int) == colon(cs@, from as int),
        decreases cs@.len() - i,
    {
        if cs[i] == ':' {
            return i;
        }
        i += 1;
    }
    i
}

/// The first colon behind a run of digits stands right behind it.
proof fn lemma_colon_after(s: Seq<char>, from: int, at: int)
    requires
        0 <= from <= at < s.len(),
        s[at] == ':',
        forall|j: int| from <= j < at ==> is_digit(#[trigger] s[j]),
    ensures
        colon(s, from) == at,
    decreases at - from,
{
    if from < at {
        assert(is_digit(s[from]));
        assert(s[from] != ':');
        lemma_colon_after(s, from + 1, at);
    }
}

/// Decoding a stamp gives back the clock's time and counter.
pub proof fn law_decode_inverts_stamp(c: Hlc<Seq<char>>)
    ensures
        decoded(stamp(c)) == (c.last_physical, c.counter),
{
    reveal_strlit(":");
    let a = padded(c.last_physical as nat, 15);
    let b = padded(c.counter as nat, 6);
    lemma_padded_value(c.last_physical as nat, 15);
    lemma_padded_value(c.counter as nat, 6);
    let s = stamp(c);
    let i = a.len() as int;
    let j = (a.len() + 1 + b.len()) as int;
    assert(s[i] == ':');
    assert(s[j] == ':');
    assert forall|k: int| 0 <= k < i implies is_digit(#[trigger] s[k]) by {
        assert(s[k] == a[k]);
    }
    assert forall|k: int| i + 1 <= k < j implies is_digit(#[trigger] s[k]) by {
        assert(s[k] == b[k - i - 1]);
    }
    lemma_colon_after(s, 0, i);
    lemma_colon_after(s, i + 1, j);
    assert(s.subrange(0, i) =~= a);
    assert(s.subrange(i + 1, j) =~= b);
    assert(is_digit(a[0]) && is_digit(b[0]));
    assert(a[0] != '+' && b[0] != '+');
}

/// The time is one that stamps have room for.
pub open spec fn in_width(c: Hlc<Seq<char>>) -> bool {
    c.last_physical < pow10(15)
}

/// One clock reads later than another, and its counter fits a stamp.
pub open spec fn reads_after(a: Hlc<Seq<char>>, b: Hlc<Seq<char>>) -> bool {
    a.last_physical < b.last_physical || (a.last_physical == b.last_physical && a.counter
        < b.counter <= LAST_COUNTER)
}

/// Of two clocks, the one with the later time, or with the same time and the higher
/// counter, shows the stamp that sorts later.
pub proof fn law_stamps_sort(a: Hlc<Seq<char>>, b: Hlc<Seq<char>>)
    requires
        in_width(a),
        in_width(b),
        reads_after(a, b),
    ensures
        lex_lt(stamp(a), stamp(b)),
{
    let pa = padded(a.last_physical as nat, 15);
    let pb = padded(b.last_physical as nat, 15);
    let ca = padded(a.counter as nat, 6);
    let cb = padded(b.counter as nat, 6);
    lemma_padded_len(a.last_physical as nat, 15);
    lemma_padded_len(b.last_physical as nat, 15);
    let ra = ":"@ + (ca + (":"@ + a.device_id));
    let rb = ":"@ + (cb + (":"@ + b.device_id));
    assert(stamp(a) =~= pa + ra);
    assert(stamp(b) =~= pb + rb);
    if a.last_physical < b.last_physical {
        lemma_padded_sorts(a.last_physical as nat, b.last_physical as nat, 15);
        lemma_lex_front(pa, pb, ra, rb);
    } else {
        reveal_with_fuel(pow10, 7);
        assert(pow10(6) == 1_000_000);
        lemma_padded_len(a.counter as nat, 6);
        lemma_padded_len(b.counter as nat, 6);
        lemma_padded_sorts(a.counter as nat, b.counter as nat, 6);
        lemma_lex_front(ca, cb, ":"@ + a.device_id, ":"@ + b.device_id);
        lemma_lex_back(":"@, ca + (":"@ + a.device_id), cb + (":"@ + b.device_id));
        lemma_lex_back(pa, ra, rb);
    }
}

/// A tick always produces a stamp that sorts after the one before it.
pub proof fn law_tick_sorts_after(c: Hlc<Seq<char>>, now: u64)
    requires
        can_tick(c, now),
        in_width(ticked(c, now)),
    ensures
        lex_lt(stamp(c), stamp(ticked(c, now))),
{
    law_stamps_sort(c, ticked(c, now));
}

/// After a clock observed a remote stamp, its next stamp sorts after the remote one.
pub proof fn law_observe_pulls_ahead(
    c: Hlc<Seq<char>>,
    remote: Hlc<Seq<char>>,
    seen_at: u64,
    now: u64,
)
    requires
        can_observe(c, decoded(stamp(remote)), seen_at),
        can_tick(observed(c, decoded(stamp(remote)), seen_at), now),
        in_width(ticked(observed(c, decoded(stamp(remote)), seen_at), now)),
    ensures
        lex_lt(stamp(remote), stamp(ticked(observed(c, decoded(stamp(remote)), seen_at), now))),
{
    law_decode_inverts_stamp(remote);
    law_stamps_sort(remote, ticked(observed(c, decoded(stamp(remote)), seen_at), now));
}

} // verus!
