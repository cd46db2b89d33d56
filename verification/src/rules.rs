//! The rule-list record: name/value pairs of server cvars.
//!
//! A rules payload is the discriminant byte 0x45, a 16-bit little-endian
//! pair count, then that many null-terminated name/value string pairs.

use crate::cursor::{cstr_chars, cstr_next, le_u16_at, lemma_cstr_reads_encoded, Cursor};
use crate::errors::Error;
use crate::strings::{lemma_encode_no_zero, lemma_lossy_decode_encode, no_nul};
use vstd::bytes::{lemma_auto_spec_u16_to_from_le_bytes, spec_u16_to_le_bytes, u16_to_le_bytes};
use vstd::prelude::*;
use vstd::utf8::encode_utf8;

verus! {

broadcast use crate::cursor::Cursor::lemma_wf_bounds;

/// Leading discriminant byte of a rules payload: `'E'`.
pub const RULES_DISCRIMINANT: u8 = 0x45;

/// One server rule.
#[derive(Debug, Clone, PartialEq)]
pub struct Rule {
    /// Name of the rule.
    pub name: String,
    /// Value of the rule.
    pub value: String,
}

/// The mathematical value of a rule.
pub ghost struct RuleV {
    pub name: Seq<char>,
    pub value: Seq<char>,
}

impl View for Rule {
    type V = RuleV;

    open spec fn view(&self) -> RuleV {
        RuleV { name: self.name@, value: self.value@ }
    }
}

/// The rule values held by a sequence of rules.
pub open spec fn rule_views(s: Seq<Rule>) -> Seq<RuleV> {
    s.map_values(|r: Rule| r@)
}

/// True when neither string of any rule holds a NUL character, so each can
/// be written as a null-terminated field.
pub open spec fn rules_encodable(rs: Seq<RuleV>) -> bool {
    forall|i: int| 0 <= i < rs.len() ==> no_nul(#[trigger] rs[i].name) && no_nul(rs[i].value)
}

/// The wire bytes of one rule: both strings, each null-terminated.
pub open spec fn rule_wire(r: RuleV) -> Seq<u8> {
    encode_utf8(r.name) + seq![0u8] + encode_utf8(r.value) + seq![0u8]
}

/// The wire bytes of a run of rules.
pub open spec fn rule_pairs_wire(rs: Seq<RuleV>) -> Seq<u8>
    decreases rs.len(),
{
    if rs.len() == 0 {
        Seq::<u8>::empty()
    } else {
        rule_wire(rs[0]) + rule_pairs_wire(rs.drop_first())
    }
}

/// The full single-packet rules datagram: the 4-byte response header, the
/// discriminant, the pair count, then the pairs.
pub open spec fn rules_wire(rs: Seq<RuleV>) -> Seq<u8> {
    seq![0xffu8, 0xffu8, 0xffu8, 0xffu8, RULES_DISCRIMINANT] + spec_u16_to_le_bytes(
        rs.len() as u16,
    ) + rule_pairs_wire(rs)
}

/// What decoding a rules payload yields.
pub ghost enum RulesParse {
    /// The decoded rules and the position just after them.
    Parsed(Seq<RuleV>, int),
    /// The buffer ended inside the discriminant or the count.
    Short,
    /// The leading byte was not the rules discriminant.
    WrongType,
}

/// The `n` name/value pairs read from `b` starting at `i`, and the position
/// just after them. String reads never fail: a missing terminator ends the
/// string at the end of the buffer.
pub open spec fn parse_rule_pairs(b: Seq<u8>, i: int, n: nat) -> (Seq<RuleV>, int)
    decreases n,
{
    if n == 0 {
        (Seq::<RuleV>::empty(), i)
    } else {
        let name = cstr_chars(b, i);
        let after_name = cstr_next(b, i);
        let value = cstr_chars(b, after_name);
        let after_value = cstr_next(b, after_name);
        let rest = parse_rule_pairs(b, after_value, (n - 1) as nat);
        (seq![RuleV { name, value }] + rest.0, rest.1)
    }
}

/// The rules record denoted by `b` from position `i` on: discriminant,
/// count, pairs.
pub open spec fn parse_rules(b: Seq<u8>, i: int) -> RulesParse {
    if i >= b.len() {
        RulesParse::Short
    } else if b[i] != RULES_DISCRIMINANT {
        RulesParse::WrongType
    } else if i + 3 > b.len() {
        RulesParse::Short
    } else {
        let n = le_u16_at(b, i + 1);
        let pairs = parse_rule_pairs(b, i + 3, n as nat);
        RulesParse::Parsed(pairs.0, pairs.1)
    }
}

impl Rule {
    /// The wire bytes of this rule: name and value, each null-terminated.
    pub fn to_bytes(&self) -> (r: Vec<u8>)
        ensures
            r@ == rule_wire(self@),
    {
        let mut bytes: Vec<u8> = Vec::new();
        crate::strings::push_c_string(&mut bytes, self.name.as_str());
        crate::strings::push_c_string(&mut bytes, self.value.as_str());
        proof {
            assert(bytes@ =~= rule_wire(self@));
        }
        bytes
    }

    /// The full single-packet rules datagram for `rules`: header,
    /// discriminant, 16-bit count, then each rule's bytes.
    pub fn vec_to_bytes(rules: Vec<Rule>) -> (r: Vec<u8>)
        requires
            rules@.len() <= 0xffff,
        ensures
            r@ == rules_wire(rule_views(rules@)),
    {
        let mut bytes: Vec<u8> = vec![0xff, 0xff, 0xff, 0xff, RULES_DISCRIMINANT];
        let count: u16 = rules.len() as u16;
        let mut count_bytes = u16_to_le_bytes(count);
        bytes.append(&mut count_bytes);
        let ghost prefix = bytes@;
        let n = rules.len();
        let mut i: usize = 0;
        proof {
            assert(rule_views(rules@).take(0) =~= Seq::<RuleV>::empty());
            assert(bytes@ =~= prefix + rule_pairs_wire(rule_views(rules@).take(0)));
        }
        while i < n
            invariant
                i <= n,
                n == rules@.len(),
                prefix == seq![0xffu8, 0xffu8, 0xffu8, 0xffu8, RULES_DISCRIMINANT]
                    + spec_u16_to_le_bytes(rules@.len() as u16),
                bytes@ == prefix + rule_pairs_wire(rule_views(rules@).take(i as int)),
            decreases n - i,
        {
            let mut rb = rules[i].to_bytes();
            bytes.append(&mut rb);
            proof {
                let views = rule_views(rules@);
                assert(views.take(i + 1) =~= views.take(i as int).push(views[i as int]));
                lemma_rule_pairs_wire_push(views.take(i as int), views[i as int]);
                assert(views[i as int] == rules@[i as int]@);
            }
            i = i + 1;
        }
        proof {
            assert(rule_views(rules@).take(n as int) =~= rule_views(rules@));
            assert(bytes@ =~= rules_wire(rule_views(rules@)));
        }
        bytes
    }

    /// Decodes a rules payload: the discriminant byte 0x45, a 16-bit count,
    /// then that many name/value pairs. Fails with `InvalidResponse` on a
    /// wrong discriminant and with `Io` when the buffer ends inside the
    /// discriminant or the count.
    pub fn from_cursor(data: Cursor) -> (r: Result<Vec<Rule>, Error>)
        requires
            data.wf(),
        ensures
            match parse_rules(data.bytes(), data.position()) {
                RulesParse::Parsed(rs, _) => r matches Ok(v) && rule_views(v@) == rs,
                RulesParse::Short => r == Err::<Vec<Rule>, Error>(Error::Io),
                RulesParse::WrongType => r == Err::<Vec<Rule>, Error>(Error::InvalidResponse),
            },
    {
        let ghost b = data.bytes();
        let ghost p0 = data.position();
        let mut data = data;
        let discriminant = match data.read_u8() {
            Ok(v) => v,
            Err(e) => {
                return Err(e);
            },
        };
        if discriminant != RULES_DISCRIMINANT {
            return Err(Error::InvalidResponse);
        }
        let count = match data.read_u16() {
            Ok(v) => v,
            Err(e) => {
                return Err(e);
            },
        };
        let ghost expected = parse_rule_pairs(b, data.position(), count as nat);
        let mut rules: Vec<Rule> = Vec::new();
        let mut k: u16 = 0;
        proof {
            assert(rule_views(rules@) =~= Seq::<RuleV>::empty());
        }
        while k < count
            invariant
                k <= count,
                data.wf(),
                data.bytes() == b,
                rules@.len() == k,
                expected == parse_rule_pairs(b, p0 + 3, count as nat),
                ({
                    let rest = parse_rule_pairs(b, data.position(), (count - k) as nat);
                    expected == (rule_views(rules@) + rest.0, rest.1)
                }),
            decreases count - k,
        {
            let ghost before = data.position();
            let ghost acc0 = rule_views(rules@);
            let name = data.read_cstring();
            let value = data.read_cstring();
            rules.push(Rule { name, value });
            proof {
                let step = parse_rule_pairs(b, before, (count - k) as nat);
                let rest = parse_rule_pairs(b, data.position(), (count - k - 1) as nat);
                assert(step.0 =~= seq![
                    RuleV { name: cstr_chars(b, before), value: cstr_chars(b, cstr_next(b, before)) },
                ] + rest.0);
                assert(rule_views(rules@) =~= acc0.push(
                    (RuleV { name: name@, value: value@ }),
                ));
                assert(acc0 + step.0 =~= rule_views(rules@) + rest.0);
            }
            k = k + 1;
        }
        proof {
            let rest = parse_rule_pairs(b, data.position(), 0);
            assert(rest.0 =~= Seq::<RuleV>::empty());
            assert(rule_views(rules@) + rest.0 =~= rule_views(rules@));
        }
        Ok(rules)
    }
}

proof fn lemma_rule_pairs_wire_push(rs: Seq<RuleV>, r: RuleV)
    ensures
        rule_pairs_wire(rs.push(r)) == rule_pairs_wire(rs) + rule_wire(r),
    decreases rs.len(),
{
    if rs.len() == 0 {
        let one = rs.push(r);
        assert(one[0] == r);
        assert(one.drop_first() =~= Seq::<RuleV>::empty());
        assert(rule_pairs_wire(one.drop_first()) =~= Seq::<u8>::empty());
        assert(rule_pairs_wire(rs.push(r)) =~= rule_pairs_wire(rs) + rule_wire(r));
    } else {
        assert(rs.push(r).drop_first() =~= rs.drop_first().push(r));
        lemma_rule_pairs_wire_push(rs.drop_first(), r);
        assert(rule_pairs_wire(rs.push(r)) =~= rule_pairs_wire(rs) + rule_wire(r));
    }
}

/// Round trip: the wire bytes of a rules record decode back to exactly that
/// record, provided no string holds a NUL character and the pair count fits
/// the 16-bit field.
pub proof fn lemma_rules_round_trip(rs: Seq<RuleV>)
    requires
        rs.len() <= 0xffff,
        rules_encodable(rs),
    ensures
        ({
            let payload = rules_wire(rs).skip(4);
            parse_rules(payload, 0) == RulesParse::Parsed(rs, payload.len() as int)
        }),
{
    let payload = rules_wire(rs).skip(4);
    let counted = spec_u16_to_le_bytes(rs.len() as u16);
    lemma_auto_spec_u16_to_from_le_bytes();
    assert(payload =~= seq![RULES_DISCRIMINANT] + counted + rule_pairs_wire(rs));
    assert(payload[0] == RULES_DISCRIMINANT);
    assert(payload.subrange(1, 3) =~= counted);
    assert(le_u16_at(payload, 1) == rs.len() as u16);
    assert(payload.subrange(3, payload.len() as int) =~= rule_pairs_wire(rs));
    lemma_parse_pairs_of_wire(payload, 3, rs);
    assert(payload.len() == 3 + rule_pairs_wire(rs).len());
}

/// Parsing `n` pairs from a position where exactly their wire bytes reach to
/// the end of the buffer gives the pairs back.
proof fn lemma_parse_pairs_of_wire(b: Seq<u8>, i: int, rs: Seq<RuleV>)
    requires
        rules_encodable(rs),
        0 <= i <= b.len(),
        b.subrange(i, b.len() as int) == rule_pairs_wire(rs),
    ensures
        parse_rule_pairs(b, i, rs.len()) == (rs, b.len() as int),
    decreases rs.len(),
{
    if rs.len() == 0 {
        assert(b.len() - i == 0);
        assert(parse_rule_pairs(b, i, 0) == (Seq::<RuleV>::empty(), i));
        assert(rs =~= Seq::<RuleV>::empty());
    } else {
        let r0 = rs[0];
        let en = encode_utf8(r0.name);
        let ev = encode_utf8(r0.value);
        let rest_wire = rule_pairs_wire(rs.drop_first());
        assert(b.subrange(i, b.len() as int) =~= en + seq![0u8] + ev + seq![0u8] + rest_wire);
        let ln = en.len() as int;
        let lv = ev.len() as int;
        assert(b.len() - i == ln + 1 + lv + 1 + rest_wire.len());
        assert(b.subrange(i, i + ln) =~= en) by {
            assert forall|k: int| 0 <= k < ln implies b.subrange(i, i + ln)[k] == en[k] by {
                assert(b[i + k] == (en + seq![0u8] + ev + seq![0u8] + rest_wire)[k]);
            }
        }
        assert(b[i + ln] == (en + seq![0u8] + ev + seq![0u8] + rest_wire)[ln]);
        assert(b[i + ln] == 0);
        lemma_cstr_reads_encoded(b, i, r0.name);
        let iv = i + ln + 1;
        assert(b.subrange(iv, iv + lv) =~= ev) by {
            assert forall|k: int| 0 <= k < lv implies b.subrange(iv, iv + lv)[k] == ev[k] by {
                assert(b[iv + k] == (en + seq![0u8] + ev + seq![0u8] + rest_wire)[ln + 1 + k]);
            }
        }
        assert(b[iv + lv] == (en + seq![0u8] + ev + seq![0u8] + rest_wire)[ln + 1 + lv]);
        assert(b[iv + lv] == 0);
        assert(no_nul(r0.value));
        lemma_cstr_reads_encoded(b, iv, r0.value);
        let inext = iv + lv + 1;
        assert(b.subrange(inext, b.len() as int) =~= rest_wire) by {
            assert forall|k: int| 0 <= k < rest_wire.len() implies b.subrange(
                inext,
                b.len() as int,
            )[k] == rest_wire[k] by {
                assert(b[inext + k] == (en + seq![0u8] + ev + seq![0u8] + rest_wire)[ln + 1 + lv + 1
                    + k]);
            }
        }
        assert(rules_encodable(rs.drop_first()));
        lemma_parse_pairs_of_wire(b, inext, rs.drop_first());
        let whole = parse_rule_pairs(b, i, rs.len());
        let rest = parse_rule_pairs(b, inext, (rs.len() - 1) as nat);
        assert(whole.0 =~= seq![RuleV { name: r0.name, value: r0.value }] + rest.0);
        assert(whole.0 =~= rs) by {
            assert(rest.0 =~= rs.drop_first());
            assert(r0 == (RuleV { name: r0.name, value: r0.value }));
        }
    }
}

/// The fixed rules request: the 4-byte prefix and the byte 0x56.
pub open spec fn rules_request_bytes() -> Seq<u8> {
    seq![0xffu8, 0xffu8, 0xffu8, 0xffu8, 0x56u8]
}

/// Builds the rules request header.
pub fn rules_request() -> (r: Vec<u8>)
    ensures
        r@ == rules_request_bytes(),
{
    let v: Vec<u8> = vec![0xff, 0xff, 0xff, 0xff, 0x56];
    proof {
        assert(v@ =~= rules_request_bytes());
    }
    v
}

} // verus!
