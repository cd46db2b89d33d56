//! Datagram framing and fragment reassembly.
//!
//! A response is either a single datagram (header -1) whose remainder is the
//! payload, or a multi-packet response (header -2) split into numbered
//! fragments that arrive in any order. [`parse_response`] classifies the
//! first datagram; a [`Reassembly`] collects the remaining fragments, and
//! [`Reassembly::finish`] sorts them by ordinal, concatenates the payloads
//! and, when the response id's high bit is set, decompresses the result and
//! verifies its checksum.
//!
//! The caller (the socket loop) only moves bytes: every decision about a
//! datagram is made and specified here.

use crate::cursor::{le_u16_at, le_u32_at};
use crate::errors::Error;
use vstd::prelude::*;
use vstd::multiset::Multiset;
use vstd::seq_lib::lemma_multiset_commutative;
use vstd::slice::{slice_subrange, slice_to_vec};

verus! {

broadcast use vstd::seq_lib::group_to_multiset_ensures;

/// Response header marking a single-packet response (-1 as little-endian
/// 32-bit value).
pub const SINGLE_PACKET: u32 = 0xffff_ffff;

/// Response header marking a multi-packet response (-2 as little-endian
/// 32-bit value).
pub const MULTI_PACKET: u32 = 0xffff_fffe;

/// Hard ceiling on the declared fragment count of one response.
pub const MAX_TOTAL_FRAGMENTS: usize = 32;

/// Hard ceiling on the declared decompressed size: 1 MiB.
pub const MAX_DECOMPRESSED_SIZE: u32 = 1048576;

/// One collected fragment: its zero-based ordinal and its payload slice.
pub struct PacketFragment {
    pub number: u8,
    pub payload: Vec<u8>,
}

/// The mathematical value of a fragment.
pub ghost struct FragV {
    pub number: u8,
    pub payload: Seq<u8>,
}

impl View for PacketFragment {
    type V = FragV;

    open spec fn view(&self) -> FragV {
        FragV { number: self.number, payload: self.payload@ }
    }
}

/// The fragment values held by a sequence of fragments.
pub open spec fn frag_views(s: Seq<PacketFragment>) -> Seq<FragV> {
    s.map_values(|f: PacketFragment| f@)
}

/// The payloads of `s` concatenated in the order given.
pub open spec fn concat_payloads(s: Seq<FragV>) -> Seq<u8>
    decreases s.len(),
{
    if s.len() == 0 {
        Seq::<u8>::empty()
    } else {
        s[0].payload + concat_payloads(s.drop_first())
    }
}

/// `f` placed into the sorted sequence `s` before the first fragment with a
/// strictly greater ordinal.
pub open spec fn insert_by_number(f: FragV, s: Seq<FragV>) -> Seq<FragV>
    decreases s.len(),
{
    if s.len() == 0 {
        seq![f]
    } else if f.number < s[0].number {
        seq![f] + s
    } else {
        seq![s[0]] + insert_by_number(f, s.drop_first())
    }
}

/// `s` rearranged into ascending ordinal order.
pub open spec fn sort_by_number(s: Seq<FragV>) -> Seq<FragV>
    decreases s.len(),
{
    if s.len() == 0 {
        Seq::<FragV>::empty()
    } else {
        insert_by_number(s.last(), sort_by_number(s.drop_last()))
    }
}

/// True when ordinals never decrease along `s`.
pub open spec fn sorted_by_number(s: Seq<FragV>) -> bool {
    forall|i: int, j: int|
        #![trigger s[i].number, s[j].number]
        0 <= i <= j < s.len() ==> s[i].number <= s[j].number
}

/// True when no two fragments of `s` carry the same ordinal.
pub open spec fn distinct_numbers(s: Seq<FragV>) -> bool {
    forall|i: int, j: int|
        #![trigger s[i].number, s[j].number]
        0 <= i < j < s.len() ==> s[i].number != s[j].number
}

/// True when some fragment of `s` carries ordinal `n`.
pub open spec fn has_number(s: Seq<FragV>, n: u8) -> bool {
    exists|i: int| 0 <= i < s.len() && #[trigger] s[i].number == n
}

/// The reassembled byte run of the fragments `s`: their payloads concatenated
/// in ascending ordinal order.
pub open spec fn assembled(s: Seq<FragV>) -> Seq<u8> {
    concat_payloads(sort_by_number(s))
}

pub proof fn lemma_concat_push(s: Seq<FragV>, f: FragV)
    ensures
        concat_payloads(s.push(f)) == concat_payloads(s) + f.payload,
    decreases s.len(),
{
    if s.len() == 0 {
        let one = s.push(f);
        assert(one.len() == 1 && one[0] == f);
        assert(one.drop_first() =~= Seq::<FragV>::empty());
        assert(concat_payloads(one.drop_first()) =~= Seq::<u8>::empty());
        assert(concat_payloads(one) =~= f.payload + Seq::<u8>::empty());
        assert(concat_payloads(s) =~= Seq::<u8>::empty());
        assert(concat_payloads(s.push(f)) =~= concat_payloads(s) + f.payload);
    } else {
        assert(s.push(f).drop_first() =~= s.drop_first().push(f));
        lemma_concat_push(s.drop_first(), f);
        assert(concat_payloads(s.push(f)) =~= concat_payloads(s) + f.payload);
    }
}

pub proof fn lemma_insert_by_number_ensures(f: FragV, s: Seq<FragV>)
    requires
        sorted_by_number(s),
    ensures
        sorted_by_number(insert_by_number(f, s)),
        insert_by_number(f, s).to_multiset() == s.to_multiset().insert(f),
        insert_by_number(f, s).len() == s.len() + 1,
        forall|k: int|
            0 <= k < insert_by_number(f, s).len() ==> #[trigger] insert_by_number(f, s)[k] == f
                || s.contains(insert_by_number(f, s)[k]),
    decreases s.len(),
{
    let out = insert_by_number(f, s);
    if s.len() == 0 {
        assert(out =~= Seq::<FragV>::empty().push(f));
        assert(Seq::<FragV>::empty().push(f).to_multiset() =~= Seq::<
            FragV,
        >::empty().to_multiset().insert(f));
    } else if f.number < s[0].number {
        assert(out =~= seq![f] + s);
        lemma_multiset_commutative(seq![f], s);
        assert(seq![f] =~= Seq::<FragV>::empty().push(f));
        assert(seq![f].to_multiset() =~= Multiset::<FragV>::empty().insert(f));
        assert(out.to_multiset() =~= s.to_multiset().insert(f));
    } else {
        let tail = s.drop_first();
        lemma_insert_by_number_ensures(f, tail);
        let inner = insert_by_number(f, tail);
        assert(out =~= seq![s[0]] + inner);
        lemma_multiset_commutative(seq![s[0]], inner);
        assert(seq![s[0]] =~= Seq::<FragV>::empty().push(s[0]));
        assert(seq![s[0]].to_multiset() =~= Multiset::<FragV>::empty().insert(s[0]));
        assert(s =~= seq![s[0]] + tail);
        lemma_multiset_commutative(seq![s[0]], tail);
        assert(out.to_multiset() =~= s.to_multiset().insert(f)) by {
            assert(out.to_multiset() =~= seq![s[0]].to_multiset().add(inner.to_multiset()));
        }
        assert(sorted_by_number(out)) by {
            assert(forall|k: int| 0 <= k < inner.len() ==> inner[k] == f || tail.contains(inner[k]));
            assert(forall|k: int| 0 <= k < inner.len() ==> s[0].number <= #[trigger] inner[k].number);
        }
    }
}

pub proof fn lemma_sort_by_number_ensures(s: Seq<FragV>)
    ensures
        sorted_by_number(sort_by_number(s)),
        sort_by_number(s).to_multiset() == s.to_multiset(),
        sort_by_number(s).len() == s.len(),
    decreases s.len(),
{
    if s.len() != 0 {
        lemma_sort_by_number_ensures(s.drop_last());
        lemma_insert_by_number_ensures(s.last(), sort_by_number(s.drop_last()));
        assert(s =~= s.drop_last().push(s.last()));
    }
}

/// Two sequences that are sorted by ordinal, carry distinct ordinals, and
/// hold the same fragments are the same sequence.
pub proof fn lemma_sorted_distinct_unique(x: Seq<FragV>, y: Seq<FragV>)
    requires
        sorted_by_number(x),
        sorted_by_number(y),
        distinct_numbers(x),
        distinct_numbers(y),
        x.to_multiset() == y.to_multiset(),
    ensures
        x == y,
    decreases x.len(),
{
    x.to_multiset_ensures();
    y.to_multiset_ensures();
    assert(x.len() == y.len());
    if x.len() == 0 {
        assert(x =~= y);
    } else {
        assert(x.contains(x[0]));
        assert(x.to_multiset().count(x[0]) > 0);
        assert(y.to_multiset().count(x[0]) > 0);
        assert(y.contains(x[0]));
        let j = choose|j: int| 0 <= j < y.len() && y[j] == x[0];
        assert(y.contains(y[0]));
        assert(y.to_multiset().count(y[0]) > 0);
        assert(x.to_multiset().count(y[0]) > 0);
        assert(x.contains(y[0]));
        let i = choose|i: int| 0 <= i < x.len() && x[i] == y[0];
        assert(y[0].number <= y[j].number);
        assert(x[0].number <= x[i].number);
        assert(x[0].number == y[0].number);
        assert(y[0] == x[0]) by {
            if j != 0 {
                assert(y[0].number != y[j].number);
            }
        }
        let xt = x.drop_first();
        let yt = y.drop_first();
        assert(x.remove(0) =~= xt);
        assert(y.remove(0) =~= yt);
        assert(xt.to_multiset() == x.to_multiset().remove(x[0]));
        assert(yt.to_multiset() == y.to_multiset().remove(y[0]));
        assert(xt.to_multiset() == yt.to_multiset());
        assert(sorted_by_number(xt) && distinct_numbers(xt));
        assert(sorted_by_number(yt) && distinct_numbers(yt));
        lemma_sorted_distinct_unique(xt, yt);
        assert forall|k: int| 0 <= k < x.len() implies x[k] == y[k] by {
            if k > 0 {
                assert(x[k] == xt[k - 1]);
                assert(y[k] == yt[k - 1]);
            }
        }
        assert(x =~= y);
    }
}

/// Reassembly does not depend on arrival order: two arrival orders of the
/// same fragments, with ordinals intact (no two alike), assemble to the same
/// payload.
pub proof fn lemma_assembled_order_independent(a: Seq<FragV>, b: Seq<FragV>)
    requires
        a.to_multiset() == b.to_multiset(),
        distinct_numbers(a),
        distinct_numbers(b),
    ensures
        assembled(a) == assembled(b),
{
    lemma_sort_by_number_ensures(a);
    lemma_sort_by_number_ensures(b);
    lemma_distinct_permutation(a, sort_by_number(a));
    lemma_distinct_permutation(b, sort_by_number(b));
    lemma_sorted_distinct_unique(sort_by_number(a), sort_by_number(b));
}

/// Distinct ordinals carry over to any rearrangement of the same fragments.
proof fn lemma_distinct_permutation(a: Seq<FragV>, c: Seq<FragV>)
    requires
        distinct_numbers(a),
        a.to_multiset() == c.to_multiset(),
    ensures
        distinct_numbers(c),
{
    assert(a.no_duplicates()) by {
        assert forall|i: int, j: int| 0 <= i < a.len() && 0 <= j < a.len() && i != j implies a[i]
            != a[j] by {
            if i < j {
                assert(a[i].number != a[j].number);
            } else {
                assert(a[j].number != a[i].number);
            }
        }
    }
    a.lemma_multiset_has_no_duplicates();
    c.lemma_multiset_has_no_duplicates_conv();
    assert forall|i: int, j: int|
        #![trigger c[i].number, c[j].number]
    0 <= i < j < c.len() implies c[i].number != c[j].number by {
        assert(c.contains(c[i]) && c.contains(c[j]));
        assert(c[i] != c[j]);
        if c[i].number == c[j].number {
            assert(a.to_multiset().contains(c[i]) && a.to_multiset().contains(c[j]));
            assert(a.contains(c[i]) && a.contains(c[j]));
            let ki = choose|k: int| 0 <= k < a.len() && a[k] == c[i];
            let kj = choose|k: int| 0 <= k < a.len() && a[k] == c[j];
            if ki < kj {
                assert(a[ki].number != a[kj].number);
            } else {
                assert(a[kj].number != a[ki].number);
            }
        }
    }
}

/// The first datagram of a response, classified.
pub enum Response {
    /// A single-packet response: the payload after the 4-byte header.
    Single(Vec<u8>),
    /// A multi-packet response: the reassembly seeded with the fragment the
    /// first datagram carried.
    Multi(Reassembly),
}

/// Offset of the fragment payload within the first datagram of a
/// multi-packet response: past the 12-byte envelope, then past a 4-byte
/// legacy artifact (uncompressed) or the 8-byte size/checksum header
/// (compressed).
pub open spec fn first_payload_offset(compressed: bool) -> int {
    if compressed {
        20
    } else {
        16
    }
}

/// Offset of the fragment payload within every later datagram: past the
/// 12-byte envelope, and past the 8-byte size/checksum header when the
/// response is compressed.
pub open spec fn later_payload_offset(compressed: bool) -> int {
    if compressed {
        20
    } else {
        12
    }
}

/// True when `id` marks its payload as bzip2-compressed (high bit set).
pub open spec fn id_compressed(id: u32) -> bool {
    id & 0x8000_0000 != 0
}

/// The high bit of a 32-bit id is set exactly when the id is at least
/// 0x8000_0000, the form the executable test takes.
pub proof fn lemma_id_compressed(id: u32)
    ensures
        id_compressed(id) == (id >= 0x8000_0000),
{
    assert((id & 0x8000_0000 != 0) == (id >= 0x8000_0000)) by (bit_vector);
}

/// True when the first datagram `b` of a multi-packet response is well
/// formed under the configured `max_size`: long enough for the envelope and
/// the first payload, with the declared fragment count in 1..=32 and the
/// declared switch size within bounds.
pub open spec fn valid_multi_header(b: Seq<u8>, max_size: usize) -> bool {
    &&& b.len() >= 12
    &&& 1 <= b[8] <= MAX_TOTAL_FRAGMENTS
    &&& le_u16_at(b, 10) <= max_size
    &&& b.len() >= first_payload_offset(id_compressed(le_u32_at(b, 4)))
}

/// Collects the fragments of one multi-packet response.
pub struct Reassembly {
    id: u32,
    total: usize,
    switching_size: usize,
    bz2_size: u32,
    bz2_crc: u32,
    fragments: Vec<PacketFragment>,
}

impl Reassembly {
    /// The shared response id of this reassembly.
    pub closed spec fn id(self) -> u32 {
        self.id
    }

    /// The declared total fragment count.
    pub closed spec fn total(self) -> int {
        self.total as int
    }

    /// The declared per-fragment payload bound.
    pub closed spec fn switching_size(self) -> int {
        self.switching_size as int
    }

    /// Whether the response id marks the payload as compressed.
    pub open spec fn compressed(self) -> bool {
        id_compressed(self.id())
    }

    /// The declared decompressed size (compressed responses only).
    pub closed spec fn declared_size(self) -> u32 {
        self.bz2_size
    }

    /// The declared CRC-32 of the decompressed payload (compressed only).
    pub closed spec fn declared_crc(self) -> u32 {
        self.bz2_crc
    }

    /// The fragments collected so far, in arrival order.
    pub closed spec fn frags(self) -> Seq<FragV> {
        frag_views(self.fragments@)
    }

    /// Bounds every reassembly keeps: the declared total is in 1..=32, never
    /// fewer fragments than declared, and no two collected fragments share
    /// an ordinal.
    pub closed spec fn wf(self) -> bool {
        &&& 1 <= self.total <= MAX_TOTAL_FRAGMENTS
        &&& self.fragments@.len() <= self.total
        &&& distinct_numbers(self.frags())
    }

    /// What well-formedness gives a caller: the declared total is bounded
    /// and never exceeded, so a reassembly that no longer needs more
    /// fragments holds exactly the declared total.
    pub broadcast proof fn lemma_wf_bounds(self)
        requires
            #[trigger] self.wf(),
        ensures
            1 <= self.total() <= MAX_TOTAL_FRAGMENTS,
            self.frags().len() <= self.total(),
            distinct_numbers(self.frags()),
    {
    }

    /// True while fewer fragments than the declared total were collected.
    pub fn needs_more(&self) -> (r: bool)
        ensures
            r == (self.frags().len() < self.total()),
    {
        proof {
            assert(self.frags().len() == self.fragments@.len());
        }
        self.fragments.len() < self.total
    }

    /// The declared per-fragment payload bound, to size receive buffers.
    pub fn switch_size(&self) -> (r: usize)
        ensures
            r == self.switching_size(),
    {
        self.switching_size
    }

    /// Takes one further datagram of this response. Rejects one that is
    /// shorter than the envelope or the payload offset, or that repeats an
    /// ordinal (`InvalidResponse`), or whose response id differs from the
    /// first fragment's (`MismatchID`); otherwise its ordinal and payload
    /// are collected.
    pub fn add_datagram(&mut self, data: Vec<u8>) -> (r: Result<(), Error>)
        requires
            old(self).wf(),
            old(self).frags().len() < old(self).total(),
        ensures
            final(self).wf(),
            final(self).id() == old(self).id(),
            final(self).total() == old(self).total(),
            final(self).switching_size() == old(self).switching_size(),
            final(self).declared_size() == old(self).declared_size(),
            final(self).declared_crc() == old(self).declared_crc(),
            ({
                let b = data@;
                let off = later_payload_offset(old(self).compressed());
                match r {
                    Ok(()) => {
                        &&& b.len() > 9
                        &&& le_u32_at(b, 4) == old(self).id()
                        &&& b.len() >= off
                        &&& !has_number(old(self).frags(), b[9])
                        &&& final(self).frags() == old(self).frags().push(
                            (FragV { number: b[9], payload: b.skip(off) }),
                        )
                    },
                    Err(Error::MismatchID) => {
                        &&& b.len() > 9
                        &&& le_u32_at(b, 4) != old(self).id()
                        &&& final(self).frags() == old(self).frags()
                    },
                    Err(Error::InvalidResponse) => {
                        &&& (b.len() <= 9 || (le_u32_at(b, 4) == old(self).id() && (b.len() < off
                            || has_number(old(self).frags(), b[9]))))
                        &&& final(self).frags() == old(self).frags()
                    },
                    _ => false,
                }
            }),
    {
        if data.len() <= 9 {
            return Err(Error::InvalidResponse);
        }
        let s = slice_subrange(data.as_slice(), 4, 8);
        let packet_id = vstd::bytes::u32_from_le_bytes(s);
        if packet_id != self.id {
            return Err(Error::MismatchID);
        }
        let off: usize = if self.id >= 0x8000_0000 { 20 } else { 12 };
        proof {
            lemma_id_compressed(self.id);
        }
        if data.len() < off {
            return Err(Error::InvalidResponse);
        }
        let number = data[9];
        if self.contains_number(number) {
            return Err(Error::InvalidResponse);
        }
        let payload = slice_to_vec(slice_subrange(data.as_slice(), off, data.len()));
        let ghost before = self.frags();
        self.fragments.push(PacketFragment { number, payload });
        proof {
            assert(self.frags() =~= before.push(
                FragV { number: data@[9], payload: data@.skip(off as int) },
            ));
            assert(distinct_numbers(self.frags())) by {
                let fs = self.frags();
                assert forall|i: int, j: int|
                    #![trigger fs[i].number, fs[j].number]
                0 <= i < j < fs.len() implies fs[i].number != fs[j].number by {
                    if j == fs.len() - 1 {
                        assert(!has_number(before, data@[9]));
                        assert(fs[i] == before[i]);
                    }
                }
            }
        }
        Ok(())
    }

    /// True when a collected fragment already carries ordinal `n`.
    fn contains_number(&self, n: u8) -> (r: bool)
        ensures
            r == has_number(self.frags(), n),
    {
        let mut i: usize = 0;
        let len = self.fragments.len();
        proof {
            assert(self.frags().len() == self.fragments@.len());
        }
        while i < len
            invariant
                i <= len,
                len == self.fragments@.len(),
                self.frags().len() == len,
                forall|k: int| 0 <= k < i ==> #[trigger] self.frags()[k].number != n,
            decreases len - i,
        {
            if self.fragments[i].number == n {
                proof {
                    assert(self.frags()[i as int].number == n);
                }
                return true;
            }
            proof {
                assert(self.frags()[i as int] == self.fragments@[i as int]@);
            }
            i = i + 1;
        }
        false
    }

    /// Sorts the collected fragments by ordinal, concatenates their payloads
    /// and, for a compressed response, rejects a declared size over 1 MiB
    /// before allocating, decompresses, and verifies the checksum.
    pub fn finish(self) -> (r: Result<Vec<u8>, Error>)
        requires
            self.wf(),
            self.frags().len() == self.total(),
        ensures
            ({
                let agg = assembled(self.frags());
                match r {
                    Ok(p) => if self.compressed() {
                        &&& self.declared_size() <= MAX_DECOMPRESSED_SIZE
                        &&& p@ == bz2_prefix(agg, self.declared_size() as nat)
                        &&& p@.len() == self.declared_size()
                        &&& crc32_of(p@) == self.declared_crc()
                    } else {
                        p@ == agg
                    },
                    Err(Error::InvalidBz2Size) => self.compressed() && self.declared_size()
                        > MAX_DECOMPRESSED_SIZE,
                    Err(Error::Io) => self.compressed() && self.declared_size()
                        <= MAX_DECOMPRESSED_SIZE,
                    Err(Error::CheckSumMismatch) => self.compressed() && self.declared_size()
                        <= MAX_DECOMPRESSED_SIZE && crc32_of(
                        bz2_prefix(agg, self.declared_size() as nat),
                    ) != self.declared_crc(),
                    _ => false,
                }
            }),
            !self.compressed() ==> r is Ok,
    {
        let compressed = self.id >= 0x8000_0000;
        proof {
            lemma_id_compressed(self.id);
        }
        let mut frags = self.fragments;
        let ghost arrival = frag_views(frags@);
        sort_fragments(&mut frags);
        proof {
            lemma_sort_by_number_ensures(arrival);
            lemma_distinct_permutation(arrival, sort_by_number(arrival));
            lemma_distinct_permutation(arrival, frag_views(frags@));
            lemma_sorted_distinct_unique(frag_views(frags@), sort_by_number(arrival));
        }
        let mut aggregation: Vec<u8> = Vec::new();
        let mut i: usize = 0;
        let n = frags.len();
        proof {
            assert(frag_views(frags@).take(0) =~= Seq::<FragV>::empty());
        }
        while i < n
            invariant
                i <= n,
                n == frags@.len(),
                aggregation@ == concat_payloads(frag_views(frags@).take(i as int)),
            decreases n - i,
        {
            let ghost fv = frag_views(frags@);
            let ghost agg0 = aggregation@;
            let p: &Vec<u8> = &frags[i].payload;
            let m = p.len();
            let mut k: usize = 0;
            while k < m
                invariant
                    k <= m,
                    m == p@.len(),
                    aggregation@ == agg0 + p@.take(k as int),
                decreases m - k,
            {
                aggregation.push(p[k]);
                proof {
                    assert(agg0 + p@.take(k + 1) =~= (agg0 + p@.take(k as int)).push(p@[k as int]));
                }
                k = k + 1;
            }
            proof {
                assert(p@.take(m as int) =~= p@);
                assert(fv.take(i + 1) =~= fv.take(i as int).push(fv[i as int]));
                lemma_concat_push(fv.take(i as int), fv[i as int]);
                assert(fv[i as int].payload == p@);
            }
            i = i + 1;
        }
        proof {
            assert(frag_views(frags@).take(n as int) =~= frag_views(frags@));
        }
        if compressed {
            if self.bz2_size > MAX_DECOMPRESSED_SIZE {
                return Err(Error::InvalidBz2Size);
            }
            let decompressed = match bz2_decompress(&aggregation, self.bz2_size as usize) {
                Some(d) => d,
                None => {
                    return Err(Error::Io);
                },
            };
            if crc32_ieee(&decompressed) != self.bz2_crc {
                return Err(Error::CheckSumMismatch);
            }
            Ok(decompressed)
        } else {
            Ok(aggregation)
        }
    }
}

/// The first position of `out` whose fragment has an ordinal strictly
/// greater than `n`, or the length when none does.
fn find_insert_position(out: &Vec<PacketFragment>, n: u8) -> (j: usize)
    ensures
        j <= out@.len(),
        forall|k: int| 0 <= k < j ==> #[trigger] frag_views(out@)[k].number <= n,
        j < out@.len() ==> frag_views(out@)[j as int].number > n,
{
    let mut j: usize = 0;
    let len = out.len();
    while j < len
        invariant
            j <= len,
            len == out@.len(),
            forall|k: int| 0 <= k < j ==> #[trigger] frag_views(out@)[k].number <= n,
        decreases len - j,
    {
        proof {
            assert(frag_views(out@)[j as int] == out@[j as int]@);
        }
        if out[j].number > n {
            return j;
        }
        j = j + 1;
    }
    j
}

/// Rearranges the fragments into ascending ordinal order.
fn sort_fragments(frags: &mut Vec<PacketFragment>)
    ensures
        sorted_by_number(frag_views(final(frags)@)),
        frag_views(final(frags)@).to_multiset() == frag_views(old(frags)@).to_multiset(),
{
    let ghost input = frag_views(old(frags)@);
    let mut out: Vec<PacketFragment> = Vec::new();
    proof {
        assert(frag_views(out@) =~= Seq::<FragV>::empty());
        assert(frag_views(frags@) == input);
    }
    while frags.len() > 0
        invariant
            sorted_by_number(frag_views(out@)),
            frag_views(out@).to_multiset().add(frag_views(frags@).to_multiset())
                == input.to_multiset(),
        decreases frags@.len(),
    {
        let ghost frags0 = frag_views(frags@);
        let f = frags.pop().unwrap();
        proof {
            assert(frag_views(frags@) =~= frags0.drop_last());
            assert(frags0.drop_last().push(f@) =~= frags0);
        }
        let ghost out0 = frag_views(out@);
        let j = find_insert_position(&out, f.number);
        out.insert(j, f);
        proof {
            lemma_insert_position(out0, f@, j as int);
            assert(frag_views(out@) =~= out0.insert(j as int, f@));
            assert(frag_views(out@).to_multiset().add(frag_views(frags@).to_multiset())
                == input.to_multiset()) by {
                assert(out0.insert(j as int, f@).to_multiset() =~= out0.to_multiset().insert(f@));
                assert(frags0 =~= frag_views(frags@).push(f@));
            }
        }
    }
    proof {
        assert(frag_views(frags@).to_multiset() =~= Seq::<FragV>::empty().to_multiset());
        assert(frag_views(frags@).to_multiset() =~= Multiset::<FragV>::empty());
    }
    *frags = out;
    proof {
        assert(frag_views(frags@).to_multiset() =~= input.to_multiset());
    }
}

/// Placing `f` at the first position whose fragment has a strictly greater
/// ordinal keeps the sequence sorted and adds `f` to its fragments.
proof fn lemma_insert_position(s: Seq<FragV>, f: FragV, j: int)
    requires
        sorted_by_number(s),
        0 <= j <= s.len(),
        forall|k: int| 0 <= k < j ==> #[trigger] s[k].number <= f.number,
        j < s.len() ==> s[j].number > f.number,
    ensures
        sorted_by_number(s.insert(j, f)),
        s.insert(j, f).to_multiset() == s.to_multiset().insert(f),
{
    let out = s.insert(j, f);
    assert forall|a: int, b: int| 0 <= a <= b < out.len() implies out[a].number
        <= out[b].number by {
        if a < j && b < j {
        } else if a < j && b == j {
        } else if a < j && b > j {
            assert(out[b] == s[b - 1]);
            assert(s[a].number <= s[b - 1].number);
        } else if a == j && b > j {
            assert(out[b] == s[b - 1]);
            assert(s[j].number <= s[b - 1].number);
        } else if a > j && b > j {
            assert(out[a] == s[a - 1] && out[b] == s[b - 1]);
        } else if a == j && b == j {
        } else {
            assert(b == j && a < j);
        }
    }
    assert(out =~= s.take(j).push(f) + s.skip(j));
    lemma_multiset_commutative(s.take(j).push(f), s.skip(j));
    assert(s =~= s.take(j) + s.skip(j));
    lemma_multiset_commutative(s.take(j), s.skip(j));
    assert(out.to_multiset() =~= s.to_multiset().insert(f));
}

/// Names the decompressed stream: the first `len` bytes that bzip2
/// decompression of `compressed` yields.
pub uninterp spec fn bz2_prefix(compressed: Seq<u8>, len: nat) -> Seq<u8>;

/// Names the CRC-32 (IEEE polynomial) of a byte run.
pub uninterp spec fn crc32_of(data: Seq<u8>) -> u32;

/// Relies on bzip2's `read::BzDecoder`: decompression is a pure function of
/// the compressed bytes, and `read_exact` fills the buffer with the first
/// `len` decompressed bytes or fails (bad stream, or fewer bytes than asked).
#[verifier::external_body]
fn bz2_decompress(compressed: &Vec<u8>, len: usize) -> (r: Option<Vec<u8>>)
    ensures
        r matches Some(d) ==> d@ == bz2_prefix(compressed@, len as nat) && d@.len() == len,
{
    let mut out = vec![0u8; len];
    let mut decoder = bzip2::read::BzDecoder::new(compressed.as_slice());
    match std::io::Read::read_exact(&mut decoder, &mut out) {
        Ok(()) => Some(out),
        Err(_) => None,
    }
}

/// Relies on the crc crate's `Crc::<u32>` with the `CRC_32_ISO_HDLC`
/// algorithm (the common IEEE CRC-32): the checksum is a pure function of
/// the input bytes.
#[verifier::external_body]
fn crc32_ieee(data: &Vec<u8>) -> (r: u32)
    ensures
        r == crc32_of(data@),
{
    crc::Crc::<u32>::new(&crc::CRC_32_ISO_HDLC).checksum(data.as_slice())
}

/// Classifies the first datagram of a response under the configured maximum
/// datagram size. A single-packet header yields the rest of the datagram; a
/// multi-packet header yields a reassembly holding the first fragment, with
/// the declared bounds checked; anything else is rejected.
pub fn parse_response(data: Vec<u8>, max_size: usize) -> (r: Result<Response, Error>)
    ensures
        ({
            let b = data@;
            match r {
                Ok(Response::Single(p)) => b.len() >= 4 && le_u32_at(b, 0) == SINGLE_PACKET && p@
                    == b.skip(4),
                Ok(Response::Multi(m)) => {
                    &&& b.len() >= 4
                    &&& le_u32_at(b, 0) == MULTI_PACKET
                    &&& valid_multi_header(b, max_size)
                    &&& m.wf()
                    &&& m.id() == le_u32_at(b, 4)
                    &&& m.total() == b[8]
                    &&& m.switching_size() == le_u16_at(b, 10)
                    &&& m.frags() == seq![
                        FragV {
                            number: b[9],
                            payload: b.skip(first_payload_offset(id_compressed(le_u32_at(b, 4)))),
                        },
                    ]
                    &&& m.compressed() ==> m.declared_size() == le_u32_at(b, 12)
                        && m.declared_crc() == le_u32_at(b, 16)
                },
                Err(Error::InvalidResponse) => b.len() < 4 || (le_u32_at(b, 0) != SINGLE_PACKET
                    && le_u32_at(b, 0) != MULTI_PACKET) || (le_u32_at(b, 0) == MULTI_PACKET
                    && !valid_multi_header(b, max_size)),
                Err(_) => false,
            }
        }),
{
    if data.len() < 4 {
        return Err(Error::InvalidResponse);
    }
    let header = vstd::bytes::u32_from_le_bytes(slice_subrange(data.as_slice(), 0, 4));
    if header == SINGLE_PACKET {
        let payload = slice_to_vec(slice_subrange(data.as_slice(), 4, data.len()));
        Ok(Response::Single(payload))
    } else if header == MULTI_PACKET {
        if data.len() < 12 {
            return Err(Error::InvalidResponse);
        }
        let id = vstd::bytes::u32_from_le_bytes(slice_subrange(data.as_slice(), 4, 8));
        let total = data[8] as usize;
        let number = data[9];
        let switching_size = vstd::bytes::u16_from_le_bytes(
            slice_subrange(data.as_slice(), 10, 12),
        ) as usize;
        if switching_size > max_size || total > MAX_TOTAL_FRAGMENTS || total == 0 {
            return Err(Error::InvalidResponse);
        }
        let compressed = id >= 0x8000_0000;
        proof {
            lemma_id_compressed(id);
        }
        let off: usize = if compressed {
            20
        } else {
            16
        };
        if data.len() < off {
            return Err(Error::InvalidResponse);
        }
        let mut bz2_size: u32 = 0;
        let mut bz2_crc: u32 = 0;
        if compressed {
            bz2_size = vstd::bytes::u32_from_le_bytes(slice_subrange(data.as_slice(), 12, 16));
            bz2_crc = vstd::bytes::u32_from_le_bytes(slice_subrange(data.as_slice(), 16, 20));
        }
        let payload = slice_to_vec(slice_subrange(data.as_slice(), off, data.len()));
        let fragment = PacketFragment { number, payload };
        let mut fragments: Vec<PacketFragment> = Vec::new();
        fragments.push(fragment);
        let m = Reassembly { id, total, switching_size, bz2_size, bz2_crc, fragments };
        proof {
            assert(m.frags() =~= seq![
                FragV { number: data@[9], payload: data@.skip(off as int) },
            ]);
        }
        Ok(Response::Multi(m))
    } else {
        Err(Error::InvalidResponse)
    }
}

} // verus!
