//! The registry of the source chains the runtime attests.

use vstd::prelude::*;

use vstd::string::StrSliceExecFns;

use crate::attestation::model::Event as AttestationEvent;
use crate::attestation::pallet::AttestationPallet;
use crate::keymap::KeyMap;
use crate::types::{ChainId, ChainKey};

verus! {

/// The chain key the registry hands out first.
pub const GENESIS_CHAIN_KEY: ChainKey = 1;

/// A chain registered for attestation.
pub struct SupportedChain {
    pub chain_id: ChainId,
    /// The chain's name, as UTF-8 bytes.
    pub chain_name: Vec<u8>,
    /// The version of the chain's block encoding.
    pub chain_encoding: u8,
    /// How attestors decide that a block of the chain is mature.
    pub maturity_strategy: String,
}

/// Events of the supported-chains pallet.
pub enum SupportedChainsEvent {
    ChainRegistered {
        chain_key: ChainKey,
        chain_id: ChainId,
        chain_name: Vec<u8>,
        chain_encoding: u8,
        maturity_strategy: String,
    },
    ChainRemoved {
        chain_key: ChainKey,
        chain_id: ChainId,
        chain_name: Vec<u8>,
        chain_encoding: u8,
        maturity_strategy: String,
    },
}

/// Why a call of the supported-chains pallet was refused.
#[derive(Clone, Copy, Debug, PartialEq, Eq, Structural)]
pub enum SupportedChainsError {
    ChainAlreadyRegistered,
    ChainNotSupported,
    Arithmetic,
    InvalidMaturityStrategy,
    /// The call's origin may not make it.
    BadOrigin,
}

/// One entry of the index from `(chain id, chain name)` to chain key.
pub struct NameEntry {
    pub chain_id: ChainId,
    pub chain_name: Vec<u8>,
    pub chain_key: ChainKey,
}

/// The index from `(chain id, chain name)` to chain key.
pub struct NameIndex {
    entries: Vec<NameEntry>,
}

impl NameIndex {
    pub closed spec fn entries_view(self) -> Seq<NameEntry> {
        self.entries@
    }

    /// No `(chain id, name)` occurs twice.
    pub open spec fn wf(self) -> bool {
        forall|i: int, j: int|
            0 <= i < j < self.entries_view().len() ==> !(#[trigger] self.entries_view()[i].chain_id
                == #[trigger] self.entries_view()[j].chain_id && self.entries_view()[i].chain_name@
                == self.entries_view()[j].chain_name@)
    }

    pub open spec fn has(self, id: ChainId, name: Seq<u8>) -> bool {
        exists|i: int|
            0 <= i < self.entries_view().len() && #[trigger] self.entries_view()[i].chain_id == id
                && self.entries_view()[i].chain_name@ == name
    }

    pub open spec fn idx(self, id: ChainId, name: Seq<u8>) -> int {
        choose|i: int|
            0 <= i < self.entries_view().len() && #[trigger] self.entries_view()[i].chain_id == id
                && self.entries_view()[i].chain_name@ == name
    }

    /// The index as a map.
    pub open spec fn spec_map(self) -> Map<(ChainId, Seq<u8>), ChainKey> {
        Map::new(
            |k: (ChainId, Seq<u8>)| self.has(k.0, k.1),
            |k: (ChainId, Seq<u8>)| self.entries_view()[self.idx(k.0, k.1)].chain_key,
        )
    }

    /// An empty index.
    pub fn new() -> (r: Self)
        ensures
            r.wf(),
            r.spec_map() == Map::<(ChainId, Seq<u8>), ChainKey>::empty(),
    {
        let r = NameIndex { entries: Vec::new() };
        assert(r.spec_map() =~= Map::<(ChainId, Seq<u8>), ChainKey>::empty());
        r
    }

    /// The position of `(id, name)`, if present.
    pub fn find(&self, id: ChainId, name: &Vec<u8>) -> (r: Option<usize>)
        requires
            self.wf(),
        ensures
            match r {
                Some(i) => i < self.entries_view().len() && self.entries_view()[i as int].chain_id == id
                    && self.entries_view()[i as int].chain_name@ == name@ && self.idx(id, name@) == i,
                None => !self.has(id, name@),
            },
    {
        let mut i: usize = 0;
        while i < self.entries.len()
            invariant
                self.wf(),
                i <= self.entries@.len(),
                forall|j: int|
                    0 <= j < i ==> !(self.entries@[j].chain_id == id && self.entries@[j].chain_name@ == name@),
            decreases self.entries@.len() - i,
        {
            if self.entries[i].chain_id == id && bytes_eq(&self.entries[i].chain_name, name) {
                proof {
                    let j = self.idx(id, name@);
                    assert(self.has(id, name@));
                    if j != i {
                        if j < i {
                            assert(!(self.entries_view()[j].chain_id == self.entries_view()[i as int].chain_id
                                && self.entries_view()[j].chain_name@ == self.entries_view()[i as int].chain_name@));
                        } else {
                            assert(!(self.entries_view()[i as int].chain_id == self.entries_view()[j].chain_id
                                && self.entries_view()[i as int].chain_name@ == self.entries_view()[j].chain_name@));
                        }
                    }
                }
                return Some(i);
            }
            i = i + 1;
        }
        None
    }

    /// Whether `(id, name)` is indexed.
    pub fn contains(&self, id: ChainId, name: &Vec<u8>) -> (b: bool)
        requires
            self.wf(),
        ensures
            b == self.spec_map().contains_key((id, name@)),
    {
        self.find(id, name).is_some()
    }

    /// The chain key of `(id, name)`, if indexed.
    pub fn get(&self, id: ChainId, name: &Vec<u8>) -> (r: Option<ChainKey>)
        requires
            self.wf(),
        ensures
            r == self.spec_map().get((id, name@)),
    {
        match self.find(id, name) {
            Some(i) => Some(self.entries[i].chain_key),
            None => None,
        }
    }

    /// Indexes a new `(id, name)` under `key`.
    pub fn insert_new(&mut self, id: ChainId, name: Vec<u8>, key: ChainKey)
        requires
            old(self).wf(),
            !old(self).has(id, name@),
        ensures
            final(self).wf(),
            final(self).spec_map() == old(self).spec_map().insert((id, name@), key),
    {
        let ghost nm = name@;
        self.entries.push(NameEntry { chain_id: id, chain_name: name, chain_key: key });
        proof {
            let n = old(self).entries_view().len();
            assert forall|i: int, j: int|
                0 <= i < j < self.entries_view().len() implies !(#[trigger] self.entries_view()[i].chain_id
                == #[trigger] self.entries_view()[j].chain_id && self.entries_view()[i].chain_name@
                == self.entries_view()[j].chain_name@) by {
                if j < n {
                    assert(old(self).entries_view()[i] == self.entries_view()[i]);
                    assert(old(self).entries_view()[j] == self.entries_view()[j]);
                } else {
                    assert(old(self).entries_view()[i] == self.entries_view()[i]);
                }
            }
            assert forall|k: (ChainId, Seq<u8>)| #[trigger] self.spec_map().contains_key(k) <==> old(self).spec_map().insert((id, nm), key).contains_key(k) by {
                if self.has(k.0, k.1) {
                    let i = choose|i: int| 0 <= i < self.entries_view().len() && #[trigger] self.entries_view()[i].chain_id == k.0
                        && self.entries_view()[i].chain_name@ == k.1;
                    if i < n {
                        assert(old(self).entries_view()[i] == self.entries_view()[i]);
                    }
                }
                if old(self).has(k.0, k.1) {
                    let i = choose|i: int| 0 <= i < old(self).entries_view().len() && #[trigger] old(self).entries_view()[i].chain_id == k.0
                        && old(self).entries_view()[i].chain_name@ == k.1;
                    assert(old(self).entries_view()[i] == self.entries_view()[i]);
                }
                if k == (id, nm) {
                    assert(self.entries_view()[n as int].chain_id == id);
                }
            }
            assert forall|k: (ChainId, Seq<u8>)| #[trigger] self.spec_map().contains_key(k) implies self.spec_map()[k]
                == old(self).spec_map().insert((id, nm), key)[k] by {
                let i = self.idx(k.0, k.1);
                if k == (id, nm) {
                    if i != n {
                        assert(old(self).entries_view()[i] == self.entries_view()[i]);
                    }
                } else {
                    assert(i < n);
                    assert(old(self).entries_view()[i] == self.entries_view()[i]);
                    let i0 = old(self).idx(k.0, k.1);
                    assert(old(self).entries_view()[i0] == self.entries_view()[i0]);
                    if i0 != i {
                        if i0 < i {
                            assert(!(self.entries_view()[i0].chain_id == self.entries_view()[i].chain_id
                                && self.entries_view()[i0].chain_name@ == self.entries_view()[i].chain_name@));
                        } else {
                            assert(!(self.entries_view()[i].chain_id == self.entries_view()[i0].chain_id
                                && self.entries_view()[i].chain_name@ == self.entries_view()[i0].chain_name@));
                        }
                    }
                }
            }
            assert(self.spec_map() =~= old(self).spec_map().insert((id, nm), key));
        }
    }

    /// Drops `(id, name)` from the index.
    pub fn remove(&mut self, id: ChainId, name: &Vec<u8>)
        requires
            old(self).wf(),
        ensures
            final(self).wf(),
            final(self).spec_map() == old(self).spec_map().remove((id, name@)),
    {
        match self.find(id, name) {
            None => {
                assert(old(self).spec_map().remove((id, name@)) =~= old(self).spec_map());
            },
            Some(i) => {
                let _ = self.entries.remove(i);
                proof {
                    let n = old(self).entries_view().len();
                    let ov = old(self).entries_view();
                    let nv = self.entries_view();
                    assert(nv == ov.remove(i as int));
                    assert forall|a: int, b: int|
                        0 <= a < b < nv.len() implies !(#[trigger] nv[a].chain_id == #[trigger] nv[b].chain_id
                        && nv[a].chain_name@ == nv[b].chain_name@) by {
                        let a0 = if a < i { a } else { a + 1 };
                        let b0 = if b < i { b } else { b + 1 };
                        assert(nv[a] == ov[a0]);
                        assert(nv[b] == ov[b0]);
                        assert(!(ov[a0].chain_id == ov[b0].chain_id && ov[a0].chain_name@ == ov[b0].chain_name@));
                    }
                    assert forall|k: (ChainId, Seq<u8>)| #[trigger] self.spec_map().contains_key(k) <==> old(self).spec_map().remove((id, name@)).contains_key(k) by {
                        if self.has(k.0, k.1) {
                            let j = choose|j: int| 0 <= j < nv.len() && #[trigger] nv[j].chain_id == k.0 && nv[j].chain_name@ == k.1;
                            let j0 = if j < i { j } else { j + 1 };
                            assert(nv[j] == ov[j0]);
                            assert(old(self).has(k.0, k.1));
                            if k == (id, name@) {
                                assert(!(ov[if j0 < i { j0 } else { i as int }].chain_id == ov[if j0 < i { i as int } else { j0 }].chain_id
                                    && ov[if j0 < i { j0 } else { i as int }].chain_name@ == ov[if j0 < i { i as int } else { j0 }].chain_name@));
                            }
                        }
                        if old(self).has(k.0, k.1) && k != (id, name@) {
                            let j = choose|j: int| 0 <= j < ov.len() && #[trigger] ov[j].chain_id == k.0 && ov[j].chain_name@ == k.1;
                            assert(j != i);
                            let j1 = if j < i { j } else { j - 1 };
                            assert(nv[j1] == ov[j]);
                        }
                    }
                    assert forall|k: (ChainId, Seq<u8>)| #[trigger] self.spec_map().contains_key(k) implies self.spec_map()[k]
                        == old(self).spec_map().remove((id, name@))[k] by {
                        let j = self.idx(k.0, k.1);
                        let j0 = if j < i { j } else { j + 1 };
                        assert(nv[j] == ov[j0]);
                        let i0 = old(self).idx(k.0, k.1);
                        if i0 != j0 {
                            if i0 < j0 {
                                assert(!(ov[i0].chain_id == ov[j0].chain_id && ov[i0].chain_name@ == ov[j0].chain_name@));
                            } else {
                                assert(!(ov[j0].chain_id == ov[i0].chain_id && ov[j0].chain_name@ == ov[i0].chain_name@));
                            }
                        }
                    }
                    assert(self.spec_map() =~= old(self).spec_map().remove((id, name@)));
                }
            },
        }
    }
}

/// Whether two byte strings are equal.
pub fn bytes_eq(a: &Vec<u8>, b: &Vec<u8>) -> (r: bool)
    ensures
        r == (a@ == b@),
{
    if a.len() != b.len() {
        return false;
    }
    let mut i: usize = 0;
    while i < a.len()
        invariant
            i <= a@.len(),
            a@.len() == b@.len(),
            forall|j: int| 0 <= j < i ==> a@[j] == b@[j],
        decreases a@.len() - i,
    {
        if a[i] != b[i] {
            return false;
        }
        i = i + 1;
    }
    assert(a@ =~= b@);
    true
}

/// Whether `c` is a Unicode `White_Space` character (what `char::is_whitespace` tests).
pub open spec fn is_space(c: char) -> bool {
    let n = c as int;
    (9 <= n <= 13) || n == 32 || n == 0x85 || n == 0xa0 || n == 0x1680 || (0x2000 <= n <= 0x200a)
        || n == 0x2028 || n == 0x2029 || n == 0x202f || n == 0x205f || n == 0x3000
}

/// `s` without its leading white space.
pub open spec fn trim_start(s: Seq<char>) -> Seq<char>
    decreases s.len(),
{
    if s.len() > 0 && is_space(s[0]) {
        trim_start(s.drop_first())
    } else {
        s
    }
}

/// `s` without its trailing white space.
pub open spec fn trim_end(s: Seq<char>) -> Seq<char>
    decreases s.len(),
{
    if s.len() > 0 && is_space(s.last()) {
        trim_end(s.drop_last())
    } else {
        s
    }
}

/// The value of the decimal digits `s`.
pub open spec fn digits_value(s: Seq<char>) -> int
    decreases s.len(),
{
    if s.len() == 0 {
        0
    } else {
        10 * digits_value(s.drop_last()) + (s.last() as int - '0' as int)
    }
}

/// Whether every character of `s` is a decimal digit.
pub open spec fn all_digits(s: Seq<char>) -> bool {
    forall|i: int| 0 <= i < s.len() ==> '0' <= #[trigger] s[i] <= '9'
}

/// The value of one or more decimal digits `d`, when it fits a `u64`.
pub open spec fn digits_u64(d: Seq<char>) -> Option<u64> {
    if d.len() > 0 && all_digits(d) && digits_value(d) <= u64::MAX {
        Some(digits_value(d) as u64)
    } else {
        None
    }
}

/// What parsing `s` as a `u64` gives: an optional `+`, then one or more decimal
/// digits whose value fits.
pub open spec fn parse_u64(s: Seq<char>) -> Option<u64> {
    if s.len() > 0 && s[0] == '+' {
        digits_u64(s.drop_first())
    } else {
        digits_u64(s)
    }
}

/// The strategy that waits for finality.
pub open spec fn evm_finalized() -> Seq<char> {
    seq!['E', 'v', 'm', 'F', 'i', 'n', 'a', 'l', 'i', 'z', 'e', 'd']
}

/// The strategy that waits for a safe block.
pub open spec fn evm_safe() -> Seq<char> {
    seq!['E', 'v', 'm', 'S', 'a', 'f', 'e']
}

/// The strategy that takes the latest block.
pub open spec fn evm_latest() -> Seq<char> {
    seq!['E', 'v', 'm', 'L', 'a', 't', 'e', 's', 't']
}

/// The prefix of a fixed-delay strategy, which the delay in blocks follows.
pub open spec fn fixed_delay_prefix() -> Seq<char> {
    seq!['F', 'i', 'x', 'e', 'd', 'D', 'e', 'l', 'a', 'y', ':']
}

/// Whether `s` names a maturity strategy: one of the three EVM strategies, or the
/// fixed-delay prefix followed by a `u64` number of blocks (white space around the
/// number allowed).
pub open spec fn is_valid_maturity(s: Seq<char>) -> bool {
    ||| s == evm_finalized()
    ||| s == evm_safe()
    ||| s == evm_latest()
    ||| (s.len() >= fixed_delay_prefix().len() && s.take(fixed_delay_prefix().len() as int)
        == fixed_delay_prefix() && parse_u64(
        trim_end(trim_start(s.skip(fixed_delay_prefix().len() as int))),
    ) is Some)
}

/// Whether `c` is a white-space character.
pub fn char_is_space(c: char) -> (b: bool)
    ensures
        b == is_space(c),
{
    let n = c as u32;
    (9 <= n && n <= 13) || n == 32 || n == 0x85 || n == 0xa0 || n == 0x1680 || (0x2000 <= n && n
        <= 0x200a) || n == 0x2028 || n == 0x2029 || n == 0x202f || n == 0x205f || n == 0x3000
}

/// Skipping leading white space of `s` from position `i` on, all white space before it.
proof fn lemma_trim_start_from(s: Seq<char>, i: int)
    requires
        0 <= i <= s.len(),
        forall|j: int| 0 <= j < i ==> is_space(#[trigger] s[j]),
    ensures
        trim_start(s) == trim_start(s.skip(i)),
    decreases i,
{
    if i > 0 {
        assert(s.drop_first().skip(i - 1) =~= s.skip(i));
        lemma_trim_start_from(s.drop_first(), i - 1);
    } else {
        assert(s.skip(0) =~= s);
    }
}

/// Dropping trailing white space of `s` down to position `i`, all white space after it.
proof fn lemma_trim_end_to(s: Seq<char>, i: int)
    requires
        0 <= i <= s.len(),
        forall|j: int| i <= j < s.len() ==> is_space(#[trigger] s[j]),
    ensures
        trim_end(s) == trim_end(s.take(i)),
    decreases s.len() - i,
{
    if i < s.len() {
        assert(s.drop_last().take(i) =~= s.take(i));
        lemma_trim_end_to(s.drop_last(), i);
    } else {
        assert(s.take(i) =~= s);
    }
}

/// A value of digits is at least the value of any of its prefixes.
proof fn lemma_digits_prefix(s: Seq<char>, k: int)
    requires
        0 <= k <= s.len(),
        all_digits(s),
    ensures
        digits_value(s) >= digits_value(s.take(k)) >= 0,
    decreases s.len() - k,
{
    if k < s.len() {
        lemma_digits_prefix(s, k + 1);
        assert(s.take(k + 1).drop_last() =~= s.take(k));
        assert(all_digits(s.take(k + 1)));
        lemma_digits_nonneg(s.take(k));
    } else {
        assert(s.take(k) =~= s);
        lemma_digits_nonneg(s);
    }
}

proof fn lemma_digits_nonneg(s: Seq<char>)
    requires
        forall|i: int| 0 <= i < s.len() ==> '0' <= #[trigger] s[i] <= '9',
    ensures
        digits_value(s) >= 0,
    decreases s.len(),
{
    if s.len() > 0 {
        lemma_digits_nonneg(s.drop_last());
    }
}

/// Whether the characters `lo..hi` of `s` equal `t`.
fn chars_equal(s: &str, lo: usize, hi: usize, t: &str) -> (b: bool)
    requires
        lo <= hi <= s@.len(),
    ensures
        b == (s@.subrange(lo as int, hi as int) == t@),
{
    let n = t.unicode_len();
    if hi - lo != n {
        return false;
    }
    let mut i: usize = 0;
    while i < n
        invariant
            n == t@.len(),
            hi - lo == n,
            lo <= hi <= s@.len(),
            i <= n,
            forall|j: int| 0 <= j < i ==> s@[lo + j] == t@[j],
        decreases n - i,
    {
        if s.get_char(lo + i) != t.get_char(i) {
            return false;
        }
        i = i + 1;
    }
    assert(s@.subrange(lo as int, hi as int) =~= t@);
    true
}

/// What parsing the characters `lo..hi` of `s` as a `u64` gives.
fn parse_u64_chars(s: &str, lo: usize, hi: usize) -> (r: Option<u64>)
    requires
        lo <= hi <= s@.len(),
    ensures
        r == parse_u64(s@.subrange(lo as int, hi as int)),
{
    let ghost t = s@.subrange(lo as int, hi as int);
    let mut start = lo;
    if lo < hi && s.get_char(lo) == '+' {
        start = lo + 1;
    }
    let ghost d = s@.subrange(start as int, hi as int);
    proof {
        if lo < hi && t[0] == '+' {
            assert(t.drop_first() =~= d);
        } else {
            assert(t =~= d);
        }
    }
    if start == hi {
        return None;
    }
    let mut v: u64 = 0;
    let mut i: usize = start;
    while i < hi
        invariant
            start < hi <= s@.len(),
            start <= i <= hi,
            d == s@.subrange(start as int, hi as int),
            all_digits(d.take(i - start)),
            v == digits_value(d.take(i - start)),
            parse_u64(s@.subrange(lo as int, hi as int)) == digits_u64(d),
        decreases hi - i,
    {
        let c = s.get_char(i);
        proof {
            assert(d.take(i + 1 - start).drop_last() =~= d.take(i - start));
            assert(d.take(i + 1 - start).last() == c);
        }
        if !('0' <= c && c <= '9') {
            proof {
                assert(d[i - start] == c);
            }
            return None;
        }
        let digit = (c as u32 - '0' as u32) as u64;
        match v.checked_mul(10) {
            None => {
                proof {
                    assert(all_digits(d.take(i + 1 - start)));
                    if all_digits(d) {
                        lemma_digits_prefix(d, i + 1 - start);
                    }
                }
                return None;
            },
            Some(w) => match w.checked_add(digit) {
                None => {
                    proof {
                        assert(all_digits(d.take(i + 1 - start)));
                        if all_digits(d) {
                            lemma_digits_prefix(d, i + 1 - start);
                        }
                    }
                    return None;
                },
                Some(x) => {
                    v = x;
                },
            },
        }
        i = i + 1;
    }
    proof {
        assert(d.take(hi - start) =~= d);
    }
    Some(v)
}

/// Whether `strategy` names a maturity strategy.
pub fn is_valid_maturity_strategy(strategy: &str) -> (b: bool)
    ensures
        b == is_valid_maturity(strategy@),
{
    let n = strategy.unicode_len();
    proof {
        reveal_strlit("EvmFinalized");
        reveal_strlit("EvmSafe");
        reveal_strlit("EvmLatest");
        reveal_strlit("FixedDelay:");
        assert("EvmFinalized"@ =~= evm_finalized());
        assert("EvmSafe"@ =~= evm_safe());
        assert("EvmLatest"@ =~= evm_latest());
        assert("FixedDelay:"@ =~= fixed_delay_prefix());
        assert(strategy@.subrange(0, n as int) =~= strategy@);
    }
    if chars_equal(strategy, 0, n, "EvmFinalized") || chars_equal(strategy, 0, n, "EvmSafe")
        || chars_equal(strategy, 0, n, "EvmLatest") {
        return true;
    }
    let plen: usize = 11;
    if n < plen || !chars_equal(strategy, 0, plen, "FixedDelay:") {
        proof {
            assert(strategy@.take(11) =~= strategy@.subrange(0, 11));
        }
        return false;
    }
    let ghost rest = strategy@.skip(11);
    let mut lo = plen;
    while lo < n && char_is_space(strategy.get_char(lo))
        invariant
            plen <= lo <= n,
            n == strategy@.len(),
            forall|j: int| plen <= j < lo ==> is_space(#[trigger] strategy@[j]),
        decreases n - lo,
    {
        lo = lo + 1;
    }
    let mut hi = n;
    while hi > lo && char_is_space(strategy.get_char(hi - 1))
        invariant
            lo <= hi <= n,
            n == strategy@.len(),
            forall|j: int| hi <= j < n ==> is_space(#[trigger] strategy@[j]),
        decreases hi - lo,
    {
        hi = hi - 1;
    }
    proof {
        assert(strategy@.take(11) =~= strategy@.subrange(0, 11));
        lemma_trim_start_from(rest, lo - 11);
        assert(rest.skip(lo - 11) =~= strategy@.subrange(lo as int, n as int));
        let u = strategy@.subrange(lo as int, n as int);
        if lo < n {
            assert(!is_space(u[0]));
        }
        assert(trim_start(u) == u);
        lemma_trim_end_to(u, hi - lo);
        assert(u.take(hi - lo) =~= strategy@.subrange(lo as int, hi as int));
        let w = strategy@.subrange(lo as int, hi as int);
        if hi > lo {
            assert(!is_space(w.last()));
        }
        assert(trim_end(w) == w);
    }
    parse_u64_chars(strategy, lo, hi).is_some()
}

/// The supported-chains pallet's state.
pub struct SupportedChainsPallet {
    pub chains: KeyMap<ChainKey, SupportedChain>,
    pub by_id_and_name: NameIndex,
    /// The key the next registered chain gets.
    pub next_chain_key: ChainKey,
    /// The maturity strategy of a chain registered without one.
    pub default_maturity_strategy: String,
}

/// Why a registration of `(chain_id, chain_name)` with `maturity` is refused, if it is.
pub open spec fn register_verdict(
    index: Map<(ChainId, Seq<u8>), ChainKey>,
    next_chain_key: ChainKey,
    chain_id: ChainId,
    chain_name: Seq<u8>,
    maturity: Option<Seq<char>>,
) -> Result<(), SupportedChainsError> {
    if index.contains_key((chain_id, chain_name)) {
        Err(SupportedChainsError::ChainAlreadyRegistered)
    } else if maturity is Some && !is_valid_maturity(maturity->0) {
        Err(SupportedChainsError::InvalidMaturityStrategy)
    } else if next_chain_key == u64::MAX {
        Err(SupportedChainsError::Arithmetic)
    } else {
        Ok(())
    }
}

impl SupportedChainsPallet {
    pub open spec fn wf(&self) -> bool {
        &&& self.chains.wf()
        &&& self.by_id_and_name.wf()
    }

    /// An empty registry whose first chain gets [`GENESIS_CHAIN_KEY`].
    pub fn new(default_maturity_strategy: String) -> (r: Self)
        ensures
            r.wf(),
            r.chains@ == Map::<ChainKey, SupportedChain>::empty(),
            r.by_id_and_name.spec_map() == Map::<(ChainId, Seq<u8>), ChainKey>::empty(),
            r.next_chain_key == GENESIS_CHAIN_KEY,
            r.default_maturity_strategy == default_maturity_strategy,
    {
        SupportedChainsPallet {
            chains: KeyMap::new(),
            by_id_and_name: NameIndex::new(),
            next_chain_key: GENESIS_CHAIN_KEY,
            default_maturity_strategy,
        }
    }

    /// Whether `chain_key` is supported.
    pub fn is_chain_supported(&self, chain_key: ChainKey) -> (b: bool)
        requires
            self.wf(),
        ensures
            b == self.chains@.contains_key(chain_key),
    {
        self.chains.contains_key(&chain_key)
    }

    /// The supported chains, in registration order.
    pub fn supported_chains(&self) -> (r: Vec<ChainKey>)
        requires
            self.wf(),
        ensures
            r@ == self.chains.key_seq(),
            r@.to_set() == self.chains@.dom(),
    {
        let mut r: Vec<ChainKey> = Vec::new();
        let mut i: usize = 0;
        while i < self.chains.len()
            invariant
                self.wf(),
                i <= self.chains.spec_len(),
                r@ == self.chains.key_seq().take(i as int),
            decreases self.chains.spec_len() - i,
        {
            r.push(*self.chains.key_at(i));
            proof {
                assert(self.chains.key_seq().take(i + 1) =~= self.chains.key_seq().take(i as int).push(
                    self.chains.pairs()[i as int].0,
                ));
            }
            i = i + 1;
        }
        proof {
            assert(self.chains.key_seq().take(self.chains.spec_len() as int) =~= self.chains.key_seq());
            assert forall|k: ChainKey| #[trigger] r@.to_set().contains(k) <==> self.chains@.dom().contains(k) by {
                if r@.to_set().contains(k) {
                    let j = choose|j: int| 0 <= j < r@.len() && r@[j] == k;
                    self.chains.lemma_pair_in_view(j);
                }
                if self.chains@.dom().contains(k) {
                    let j = self.chains.idx(k);
                    assert(r@[j] == k);
                }
            }
            assert(r@.to_set() =~= self.chains@.dom());
        }
        r
    }

    /// The chain key of `(chain_id, chain_name)`, if registered.
    pub fn chain_key_by_chain_id_and_name(&self, chain_id: ChainId, chain_name: &Vec<u8>) -> (r: Option<
        ChainKey,
    >)
        requires
            self.wf(),
        ensures
            r == self.by_id_and_name.spec_map().get((chain_id, chain_name@)),
    {
        self.by_id_and_name.get(chain_id, chain_name)
    }

    /// Registers a chain under the next chain key, with its maturity strategy (or the
    /// default one), and sets up its attestation parameters. Returns the chain key;
    /// on error nothing changes.
    pub fn register_chain(
        &mut self,
        operator: bool,
        attestation: &mut AttestationPallet,
        chain_id: ChainId,
        chain_name: Vec<u8>,
        target_sample_size: Option<u32>,
        chain_attestation_interval: Option<u64>,
        attestation_checkpoint_interval: Option<u32>,
        max_attestors: Option<u32>,
        max_invulnerables: Option<u32>,
        attestation_chain_genesis_block_number: Option<u64>,
        encoding: u8,
        maturity_strategy: Option<String>,
        attestation_events: &mut Vec<AttestationEvent>,
        events: &mut Vec<SupportedChainsEvent>,
    ) -> (r: Result<ChainKey, SupportedChainsError>)
        requires
            old(self).wf(),
            old(attestation).wf(),
        ensures
            final(self).wf(),
            final(attestation).wf(),
            !operator ==> r == Err::<ChainKey, SupportedChainsError>(SupportedChainsError::BadOrigin) && *final(self)
                == *old(self) && *final(attestation) == *old(attestation) && final(events)@ == old(events)@
                && final(attestation_events)@ == old(attestation_events)@,
            operator ==> match register_verdict(
                old(self).by_id_and_name.spec_map(),
                old(self).next_chain_key,
                chain_id,
                chain_name@,
                match maturity_strategy {
                    Some(m) => Some(m@),
                    None => None,
                },
            ) {
                Err(e) => r == Err::<ChainKey, SupportedChainsError>(e) && *final(self) == *old(self)
                    && *final(attestation) == *old(attestation) && final(events)@ == old(events)@
                    && final(attestation_events)@ == old(attestation_events)@,
                Ok(()) => {
                    let key = old(self).next_chain_key;
                    &&& r == Ok::<ChainKey, SupportedChainsError>(key)
                    &&& final(self).next_chain_key == key + 1
                    &&& final(self).chains@.dom() == old(self).chains@.dom().insert(key)
                    &&& forall|k: ChainKey| k != key && #[trigger] old(self).chains@.contains_key(k)
                        ==> final(self).chains@[k] == old(self).chains@[k]
                    &&& final(self).chains@[key].chain_id == chain_id
                    &&& final(self).chains@[key].chain_name@ == chain_name@
                    &&& final(self).chains@[key].chain_encoding == encoding
                    &&& final(self).chains@[key].maturity_strategy@ == match maturity_strategy {
                        Some(m) => m@,
                        None => old(self).default_maturity_strategy@,
                    }
                    &&& final(self).by_id_and_name.spec_map() == old(self).by_id_and_name.spec_map().insert(
                        (chain_id, chain_name@),
                        key,
                    )
                    &&& final(self).default_maturity_strategy == old(self).default_maturity_strategy
                    &&& final(events)@.len() == old(events)@.len() + 1
                    &&& final(events)@.take(old(events)@.len() as int) == old(events)@
                    &&& final(events)@.last() matches SupportedChainsEvent::ChainRegistered {
                        chain_key: ck,
                        chain_id: ci,
                        chain_name: cn,
                        chain_encoding: ce,
                        maturity_strategy: ms,
                    } && ck == key && ci == chain_id && cn@ == chain_name@ && ce == encoding
                        && ms@ == final(self).chains@[key].maturity_strategy@
                    &&& AttestationPallet::chain_registered_effect(
                        *old(attestation),
                        *final(attestation),
                        old(attestation_events)@,
                        final(attestation_events)@,
                        key,
                        target_sample_size,
                        chain_attestation_interval,
                        attestation_checkpoint_interval,
                        max_attestors,
                        max_invulnerables,
                        attestation_chain_genesis_block_number,
                    )
                },
            },
    {
        if !operator {
            return Err(SupportedChainsError::BadOrigin);
        }
        if self.by_id_and_name.contains(chain_id, &chain_name) {
            return Err(SupportedChainsError::ChainAlreadyRegistered);
        }
        let strategy = match maturity_strategy {
            Some(m) => {
                if !is_valid_maturity_strategy(m.as_str()) {
                    return Err(SupportedChainsError::InvalidMaturityStrategy);
                }
                m
            },
            None => self.default_maturity_strategy.clone(),
        };
        if self.next_chain_key == u64::MAX {
            return Err(SupportedChainsError::Arithmetic);
        }
        let key = self.next_chain_key;
        let name_copy = copy_bytes(&chain_name);
        let name_event = copy_bytes(&chain_name);
        let strategy_event = strategy.clone();
        self.chains.insert(
            key,
            SupportedChain { chain_id, chain_name: name_copy, chain_encoding: encoding, maturity_strategy: strategy },
        );
        self.by_id_and_name.insert_new(chain_id, chain_name, key);
        self.next_chain_key = key + 1;
        attestation.on_register_chain(
            key,
            target_sample_size,
            chain_attestation_interval,
            attestation_checkpoint_interval,
            max_attestors,
            max_invulnerables,
            attestation_chain_genesis_block_number,
            attestation_events,
        );
        events.push(
            SupportedChainsEvent::ChainRegistered {
                chain_key: key,
                chain_id,
                chain_name: name_event,
                chain_encoding: encoding,
                maturity_strategy: strategy_event,
            },
        );
        proof {
            assert(events@.take(old(events)@.len() as int) =~= old(events)@);
        }
        Ok(key)
    }

    /// Removes a supported chain and clears its attestation state (its checkpoints
    /// too, in batches, with `remove_checkpoints`). On error nothing changes.
    pub fn remove_chain(
        &mut self,
        operator: bool,
        attestation: &mut AttestationPallet,
        chain_key: ChainKey,
        remove_checkpoints: bool,
        attestation_events: &mut Vec<AttestationEvent>,
        events: &mut Vec<SupportedChainsEvent>,
    ) -> (r: Result<(), SupportedChainsError>)
        requires
            old(self).wf(),
            old(attestation).wf(),
        ensures
            final(self).wf(),
            final(attestation).wf(),
            !operator ==> r == Err::<(), SupportedChainsError>(SupportedChainsError::BadOrigin) && *final(self)
                == *old(self) && *final(attestation) == *old(attestation) && final(events)@ == old(events)@
                && final(attestation_events)@ == old(attestation_events)@,
            operator && !old(self).chains@.contains_key(chain_key) ==> r == Err::<(), SupportedChainsError>(
                SupportedChainsError::ChainNotSupported,
            ) && *final(self) == *old(self) && *final(attestation) == *old(attestation)
                && final(events)@ == old(events)@ && final(attestation_events)@ == old(attestation_events)@,
            operator && old(self).chains@.contains_key(chain_key) ==> {
                let c = old(self).chains@[chain_key];
                &&& r is Ok
                &&& final(self).chains@ == old(self).chains@.remove(chain_key)
                &&& final(self).by_id_and_name.spec_map() == old(self).by_id_and_name.spec_map().remove(
                    (c.chain_id, c.chain_name@),
                )
                &&& final(self).next_chain_key == old(self).next_chain_key
                &&& final(self).default_maturity_strategy == old(self).default_maturity_strategy
                &&& final(events)@.len() == old(events)@.len() + 1
                &&& final(events)@.take(old(events)@.len() as int) == old(events)@
                &&& final(events)@.last() matches SupportedChainsEvent::ChainRemoved {
                    chain_key: ck,
                    chain_id: ci,
                    chain_name: cn,
                    chain_encoding: ce,
                    maturity_strategy: ms,
                } && ck == chain_key && ci == c.chain_id && cn@ == c.chain_name@ && ce == c.chain_encoding
                    && ms@ == c.maturity_strategy@
                &&& AttestationPallet::chain_removed_effect(
                    *old(attestation),
                    *final(attestation),
                    old(attestation_events)@,
                    final(attestation_events)@,
                    chain_key,
                    remove_checkpoints,
                )
            },
    {
        if !operator {
            return Err(SupportedChainsError::BadOrigin);
        }
        if !self.chains.contains_key(&chain_key) {
            return Err(SupportedChainsError::ChainNotSupported);
        }
        let item = match self.chains.remove(&chain_key) {
            Some(item) => item,
            None => {
                return Err(SupportedChainsError::ChainNotSupported);
            },
        };
        self.by_id_and_name.remove(item.chain_id, &item.chain_name);
        attestation.on_supported_chain_removed(chain_key, remove_checkpoints, attestation_events);
        events.push(
            SupportedChainsEvent::ChainRemoved {
                chain_key,
                chain_id: item.chain_id,
                chain_name: item.chain_name,
                chain_encoding: item.chain_encoding,
                maturity_strategy: item.maturity_strategy,
            },
        );
        proof {
            assert(events@.take(old(events)@.len() as int) =~= old(events)@);
        }
        Ok(())
    }
}

/// A copy of a byte string.
pub fn copy_bytes(v: &Vec<u8>) -> (r: Vec<u8>)
    ensures
        r@ == v@,
{
    let mut r: Vec<u8> = Vec::new();
    let mut i: usize = 0;
    while i < v.len()
        invariant
            i <= v@.len(),
            r@ == v@.take(i as int),
        decreases v@.len() - i,
    {
        r.push(v[i]);
        proof {
            assert(v@.take(i + 1) =~= v@.take(i as int).push(v@[i as int]));
        }
        i = i + 1;
    }
    proof {
        assert(v@.take(v@.len() as int) =~= v@);
    }
    r
}

/// The supported-chains genesis settings: chains to register, in order, as
/// `(chain id, name, encoding version, maturity strategy)`.
pub struct GenesisConfig {
    pub supported_chains: Vec<(ChainId, Vec<u8>, u8, String)>,
}

/// The index after registering the chains `cfgs` under the keys 1, 2, ...
pub open spec fn genesis_index(
    m: Map<(ChainId, Seq<u8>), ChainKey>,
    cfgs: Seq<(ChainId, Vec<u8>, u8, String)>,
) -> Map<(ChainId, Seq<u8>), ChainKey>
    decreases cfgs.len(),
{
    if cfgs.len() == 0 {
        m
    } else {
        genesis_index(m, cfgs.drop_last()).insert((cfgs.last().0, cfgs.last().1@), cfgs.len() as u64)
    }
}

impl GenesisConfig {
    /// No two chains of the settings share an id and a name, and none is already in
    /// `index`; a repeated one stops the genesis.
    pub open spec fn distinct_chains(&self, index: Map<(ChainId, Seq<u8>), ChainKey>) -> bool {
        let cfgs = self.supported_chains@;
        &&& forall|i: int, j: int|
            0 <= i < j < cfgs.len() ==> !(#[trigger] cfgs[i].0 == #[trigger] cfgs[j].0 && cfgs[i].1@ == cfgs[j].1@)
        &&& forall|i: int| 0 <= i < cfgs.len() ==> !index.contains_key((#[trigger] cfgs[i].0, cfgs[i].1@))
    }

    /// Whether two configured chains share an id and a name, or one is already in the
    /// registry of `pallet`: the genesis cannot be built then.
    pub fn has_duplicate(&self, pallet: &SupportedChainsPallet) -> (b: bool)
        requires
            pallet.wf(),
        ensures
            b == !self.distinct_chains(pallet.by_id_and_name.spec_map()),
    {
        let cfgs = &self.supported_chains;
        let mut i: usize = 0;
        while i < cfgs.len()
            invariant
                pallet.wf(),
                i <= cfgs@.len(),
                cfgs@ == self.supported_chains@,
                forall|a: int, b: int| 0 <= a < b < i ==> !(#[trigger] cfgs@[a].0 == #[trigger] cfgs@[b].0
                    && cfgs@[a].1@ == cfgs@[b].1@),
                forall|a: int| 0 <= a < i ==> !pallet.by_id_and_name.spec_map().contains_key(
                    (#[trigger] cfgs@[a].0, cfgs@[a].1@),
                ),
            decreases cfgs@.len() - i,
        {
            if pallet.by_id_and_name.contains(cfgs[i].0, &cfgs[i].1) {
                return true;
            }
            let mut j: usize = 0;
            while j < i
                invariant
                    i < cfgs@.len(),
                    j <= i,
                    cfgs@ == self.supported_chains@,
                    forall|a: int| 0 <= a < j ==> !(#[trigger] cfgs@[a].0 == cfgs@[i as int].0 && cfgs@[a].1@
                        == cfgs@[i as int].1@),
                decreases i - j,
            {
                if cfgs[j].0 == cfgs[i].0 && bytes_eq(&cfgs[j].1, &cfgs[i].1) {
                    return true;
                }
                j = j + 1;
            }
            i = i + 1;
        }
        false
    }

    /// Registers the configured chains under the keys [`GENESIS_CHAIN_KEY`], 2, ...
    /// in order; the next registered chain gets the following key.
    pub fn build(&self, pallet: &mut SupportedChainsPallet)
        requires
            old(pallet).wf(),
            self.supported_chains@.len() < u64::MAX,
            self.distinct_chains(old(pallet).by_id_and_name.spec_map()),
        ensures
            final(pallet).wf(),
            ({
                let cfgs = self.supported_chains@;
                let n = cfgs.len();
                &&& final(pallet).next_chain_key == n + 1
                &&& forall|k: ChainKey| #[trigger] final(pallet).chains@.contains_key(k) <==> (old(
                    pallet,
                ).chains@.contains_key(k) || 1 <= k <= n)
                &&& forall|k: ChainKey| #[trigger] old(pallet).chains@.contains_key(k) && !(1 <= k <= n)
                    ==> final(pallet).chains@[k] == old(pallet).chains@[k]
                &&& forall|i: int| 0 <= i < n ==> {
                    let c = #[trigger] final(pallet).chains@[(i + 1) as u64];
                    &&& c.chain_id == cfgs[i].0
                    &&& c.chain_name@ == cfgs[i].1@
                    &&& c.chain_encoding == cfgs[i].2
                    &&& c.maturity_strategy@ == cfgs[i].3@
                }
                &&& final(pallet).by_id_and_name.spec_map() == genesis_index(
                    old(pallet).by_id_and_name.spec_map(),
                    cfgs,
                )
                &&& final(pallet).default_maturity_strategy == old(pallet).default_maturity_strategy
            }),
    {
        let cfgs = &self.supported_chains;
        let ghost index0 = pallet.by_id_and_name.spec_map();
        let ghost chains0 = pallet.chains@;
        let mut chain_key: u64 = GENESIS_CHAIN_KEY;
        let mut i: usize = 0;
        while i < cfgs.len()
            invariant
                pallet.wf(),
                i <= cfgs@.len(),
                cfgs@.len() < u64::MAX,
                chain_key == i + 1,
                self.distinct_chains(index0),
                cfgs@ == self.supported_chains@,
                pallet.by_id_and_name.spec_map() == genesis_index(index0, cfgs@.take(i as int)),
                forall|k: ChainKey| #[trigger] pallet.chains@.contains_key(k) <==> (chains0.contains_key(k) || 1 <= k
                    <= i),
                forall|k: ChainKey| #[trigger] chains0.contains_key(k) && !(1 <= k <= i) ==> pallet.chains@[k]
                    == chains0[k],
                forall|j: int| 0 <= j < i ==> {
                    let c = #[trigger] pallet.chains@[(j + 1) as u64];
                    &&& c.chain_id == cfgs@[j].0
                    &&& c.chain_name@ == cfgs@[j].1@
                    &&& c.chain_encoding == cfgs@[j].2
                    &&& c.maturity_strategy@ == cfgs@[j].3@
                },
                pallet.default_maturity_strategy == old(pallet).default_maturity_strategy,
            decreases cfgs@.len() - i,
        {
            let entry = &cfgs[i];
            let id = entry.0;
            proof {
                assert(cfgs@.take(i + 1).drop_last() =~= cfgs@.take(i as int));
                assert forall|k: (ChainId, Seq<u8>)| #[trigger] genesis_index(index0, cfgs@.take(i as int)).contains_key(k)
                    implies index0.contains_key(k) || exists|j: int| 0 <= j < i && k == (cfgs@[j].0, cfgs@[j].1@) by {
                    lemma_genesis_index_keys(index0, cfgs@, i as int, k);
                }
                if genesis_index(index0, cfgs@.take(i as int)).contains_key((id, entry.1@)) {
                    if !index0.contains_key((id, entry.1@)) {
                        let j = choose|j: int| 0 <= j < i && (id, entry.1@) == (cfgs@[j].0, cfgs@[j].1@);
                        assert(!(cfgs@[j].0 == cfgs@[i as int].0 && cfgs@[j].1@ == cfgs@[i as int].1@));
                    }
                }
                assert(!pallet.by_id_and_name.has(id, entry.1@));
            }
            let name = copy_bytes(&entry.1);
            let name_for_index = copy_bytes(&entry.1);
            let strategy = entry.3.clone();
            pallet.chains.insert(
                chain_key,
                SupportedChain { chain_id: id, chain_name: name, chain_encoding: entry.2, maturity_strategy: strategy },
            );
            pallet.by_id_and_name.insert_new(id, name_for_index, chain_key);
            chain_key = chain_key + 1;
            i = i + 1;
        }
        proof {
            assert(cfgs@.take(cfgs@.len() as int) =~= cfgs@);
        }
        pallet.next_chain_key = chain_key;
    }
}

/// A key of the index built from `cfgs.take(i)` over `m` is a key of `m` or one of
/// the first `i` chains.
proof fn lemma_genesis_index_keys(
    m: Map<(ChainId, Seq<u8>), ChainKey>,
    cfgs: Seq<(ChainId, Vec<u8>, u8, String)>,
    i: int,
    k: (ChainId, Seq<u8>),
)
    requires
        0 <= i <= cfgs.len(),
        genesis_index(m, cfgs.take(i)).contains_key(k),
    ensures
        m.contains_key(k) || exists|j: int| 0 <= j < i && k == (cfgs[j].0, cfgs[j].1@),
    decreases i,
{
    if i > 0 {
        let t = cfgs.take(i);
        assert(t.drop_last() =~= cfgs.take(i - 1));
        if k == (cfgs[i - 1].0, cfgs[i - 1].1@) {
        } else {
            lemma_genesis_index_keys(m, cfgs, i - 1, k);
        }
    }
}

} // verus!
