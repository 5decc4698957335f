//! Ghost model of a conforming archive reader, used to state and prove
//! round-trip laws: what the builder writes, such a reader recovers.

use vstd::prelude::*;
use crate::fmt::{
    SPACE, spec_num_digits, spec_digits, spec_pad, spec_spaces, lemma_digits_len,
    lemma_digits_ascii, lemma_ten_digits,
};
use crate::header::{HeaderV, spec_record, lemma_record_len, NAME_WIDTH};
use crate::builder::{
    spec_find, spec_table_offset, spec_table_blob, spec_member, spec_resolved_name, spec_body_pad,
    lemma_blob_take_len, lemma_blob_entry, SIZE_FIELD_LIMIT,
};

verus! {

/// Numeric value of an ASCII digit run, most significant digit first.
pub open spec fn spec_digits_value(s: Seq<u8>, radix: nat) -> nat
    decreases s.len(),
{
    if s.len() == 0 {
        0
    } else {
        spec_digits_value(s.drop_last(), radix) * radix + (s.last() - 48) as nat
    }
}

/// A field with its trailing space padding removed, as a reader sees a
/// left-justified column.
pub open spec fn spec_trim(s: Seq<u8>) -> Seq<u8>
    decreases s.len(),
{
    if s.len() > 0 && s.last() == SPACE {
        spec_trim(s.drop_last())
    } else {
        s
    }
}

/// A conforming reader's parse of one numeric column.
pub open spec fn spec_parse_field(s: Seq<u8>, radix: nat) -> nat {
    spec_digits_value(spec_trim(s), radix)
}

/// Parsing inverts printing: the digit run of `v` evaluates back to `v`.
pub proof fn lemma_digits_value_inverts(v: nat, radix: nat)
    requires
        2 <= radix <= 10,
    ensures
        spec_digits_value(spec_digits(v, radix), radix) == v,
    decreases v,
{
    if v < radix {
        let s = spec_digits(v, radix);
        assert(s.drop_last() =~= Seq::<u8>::empty());
        assert(s.last() == (48 + v) as u8);
        assert(spec_digits_value(s, radix) == spec_digits_value(s.drop_last(), radix) * radix + (
        s.last() - 48) as nat);
        assert(spec_digits_value(s.drop_last(), radix) == 0);
        assert((s.last() - 48) as nat == v);
        assert(spec_digits_value(s, radix) == 0 * radix + v);
        assert(spec_digits_value(s, radix) == v);
    } else {
        vstd::arithmetic::div_mod::lemma_div_decreases(v as int, radix as int);
        lemma_digits_value_inverts(v / radix, radix);
        assert(spec_digits(v, radix).drop_last() =~= spec_digits(v / radix, radix));
        assert(v % radix < radix) by (nonlinear_arith)
            requires
                2 <= radix,
        ;
        vstd::arithmetic::div_mod::lemma_fundamental_div_mod(v as int, radix as int);
        assert(spec_digits(v, radix).last() == (48 + v % radix) as u8);
        assert((spec_digits(v, radix).last() - 48) as nat == v % radix);
        assert(spec_digits_value(spec_digits(v, radix), radix) == (v / radix) * radix + v % radix);
    }
}

/// Trimming removes exactly the appended spaces.
pub proof fn lemma_trim_spaces(s: Seq<u8>, k: nat)
    ensures
        spec_trim(s + spec_spaces(k)) == spec_trim(s),
    decreases k,
{
    if k == 0 {
        assert(s + spec_spaces(0) =~= s);
    } else {
        assert((s + spec_spaces(k)).drop_last() =~= s + spec_spaces((k - 1) as nat));
        lemma_trim_spaces(s, (k - 1) as nat);
    }
}

/// A string without a trailing space is already trimmed.
pub proof fn lemma_trim_noop(s: Seq<u8>)
    requires
        s.len() == 0 || s.last() != SPACE,
    ensures
        spec_trim(s) == s,
{
}

/// Trimming a padded field recovers the content when the content itself
/// carries no trailing space.
pub proof fn lemma_trim_pad(s: Seq<u8>, w: nat)
    requires
        s.len() <= w,
        s.len() == 0 || s.last() != SPACE,
    ensures
        spec_trim(spec_pad(s, w)) == s,
{
    lemma_trim_spaces(s, (w - s.len()) as nat);
    lemma_trim_noop(s);
}

/// A printed numeric column parses back to its value.
pub proof fn lemma_parse_padded_digits(v: nat, radix: nat, w: nat)
    requires
        2 <= radix <= 10,
        spec_num_digits(v, radix) <= w,
    ensures
        spec_parse_field(spec_pad(spec_digits(v, radix), w), radix) == v,
{
    lemma_digits_len(v, radix);
    lemma_digits_ascii(v, radix);
    lemma_trim_pad(spec_digits(v, radix), w);
    lemma_digits_value_inverts(v, radix);
}

/// Round trip of one record: a conforming reader recovers every numeric
/// field from the printed columns, the end marker is in place, and the name
/// column trims back to the resolved name.
pub proof fn lemma_record_round_trip(name: Seq<u8>, h: HeaderV)
    requires
        h.valid(),
        spec_num_digits(h.size as nat, 10) <= 10,
        name.len() <= NAME_WIDTH,
        name.len() == 0 || name.last() != SPACE,
    ensures
        spec_record(name, h).len() == 60,
        spec_trim(spec_record(name, h).subrange(0, 16)) == name,
        spec_parse_field(spec_record(name, h).subrange(16, 28), 10) == h.mtime,
        spec_parse_field(spec_record(name, h).subrange(28, 34), 10) == h.uid,
        spec_parse_field(spec_record(name, h).subrange(34, 40), 10) == h.gid,
        spec_parse_field(spec_record(name, h).subrange(40, 48), 8) == h.mode,
        spec_parse_field(spec_record(name, h).subrange(48, 58), 10) == h.size,
        spec_record(name, h)[58] == 96,
        spec_record(name, h)[59] == 10,
{
    let rec = spec_record(name, h);
    lemma_record_len(name, h);
    lemma_digits_len(h.mtime as nat, 10);
    lemma_digits_len(h.uid as nat, 10);
    lemma_digits_len(h.gid as nat, 10);
    lemma_digits_len(h.mode as nat, 8);
    lemma_digits_len(h.size as nat, 10);
    assert(rec.subrange(0, 16) =~= spec_pad(name, 16));
    assert(rec.subrange(16, 28) =~= spec_pad(spec_digits(h.mtime as nat, 10), 12));
    assert(rec.subrange(28, 34) =~= spec_pad(spec_digits(h.uid as nat, 10), 6));
    assert(rec.subrange(34, 40) =~= spec_pad(spec_digits(h.gid as nat, 10), 6));
    assert(rec.subrange(40, 48) =~= spec_pad(spec_digits(h.mode as nat, 8), 8));
    assert(rec.subrange(48, 58) =~= spec_pad(spec_digits(h.size as nat, 10), 10));
    lemma_trim_pad(name, 16);
    lemma_parse_padded_digits(h.mtime as nat, 10, 12);
    lemma_parse_padded_digits(h.uid as nat, 10, 6);
    lemma_parse_padded_digits(h.gid as nat, 10, 6);
    lemma_parse_padded_digits(h.mode as nat, 8, 8);
    lemma_parse_padded_digits(h.size as nat, 10, 10);
}

/// Round trip of one member as the builder writes it: the body sits
/// verbatim right after the 60-byte record, followed by exactly one pad
/// byte when the body length is odd and none when it is even, so the next
/// header starts at an even offset; every numeric column parses back; an
/// inline identifier trims back out of the name column, while a long
/// identifier's column starts with a slash whose decimal offset locates the
/// literal identifier inside the extended name table blob.
pub proof fn lemma_member_round_trip(names: Seq<Seq<u8>>, h: HeaderV, body: Seq<u8>)
    requires
        h.valid(),
        h.size == body.len(),
        body.len() < SIZE_FIELD_LIMIT,
        spec_table_blob(names).len() < SIZE_FIELD_LIMIT,
        h.identifier.len() <= NAME_WIDTH ==> (h.identifier.len() == 0 || h.identifier.last()
            != SPACE),
        h.identifier.len() > NAME_WIDTH ==> 0 <= spec_find(names, h.identifier) < names.len()
            && names[spec_find(names, h.identifier)] == h.identifier,
    ensures
        ({
            let m = spec_member(names, h, body);
            &&& m.len() == 60 + body.len() + spec_body_pad(body.len()).len()
            &&& spec_body_pad(body.len()).len() == (if body.len() % 2 == 1 {
                1nat
            } else {
                0nat
            })
            &&& m.len() % 2 == 0
            &&& m.subrange(60, 60 + body.len() as int) == body
            &&& spec_parse_field(m.subrange(16, 28), 10) == h.mtime
            &&& spec_parse_field(m.subrange(28, 34), 10) == h.uid
            &&& spec_parse_field(m.subrange(34, 40), 10) == h.gid
            &&& spec_parse_field(m.subrange(40, 48), 8) == h.mode
            &&& spec_parse_field(m.subrange(48, 58), 10) == h.size
            &&& (h.identifier.len() <= NAME_WIDTH ==> spec_trim(m.subrange(0, 16))
                == h.identifier)
            &&& (h.identifier.len() > NAME_WIDTH ==> ({
                let off = spec_table_offset(names, spec_find(names, h.identifier));
                &&& m[0] == 47u8
                &&& spec_parse_field(m.subrange(1, 16), 10) == off
                &&& spec_table_blob(names).subrange(
                    off as int,
                    off + h.identifier.len() as int,
                ) == h.identifier
            }))
        }),
{
    let resolved = spec_resolved_name(names, h.identifier);
    let m = spec_member(names, h, body);
    let rec = spec_record(resolved, h);
    lemma_ten_digits(h.size as nat);
    if h.identifier.len() > NAME_WIDTH {
        let i = spec_find(names, h.identifier);
        let off = spec_table_offset(names, i);
        lemma_blob_take_len(names, i);
        lemma_ten_digits(off);
        lemma_digits_len(off, 10);
        lemma_digits_ascii(off, 10);
        assert(resolved.last() == spec_digits(off, 10).last());
        lemma_record_round_trip(resolved, h);
        assert(m.subrange(0, 16) =~= rec.subrange(0, 16));
        assert(m[0] == rec[0]);
        assert(rec[0] == 47u8);
        assert(m.subrange(1, 16) =~= spec_pad(spec_digits(off, 10), 15));
        lemma_parse_padded_digits(off, 10, 15);
        lemma_blob_entry(names, i);
    } else {
        lemma_record_round_trip(resolved, h);
        assert(m.subrange(0, 16) =~= rec.subrange(0, 16));
    }
    assert(m.subrange(16, 28) =~= rec.subrange(16, 28));
    assert(m.subrange(28, 34) =~= rec.subrange(28, 34));
    assert(m.subrange(34, 40) =~= rec.subrange(34, 40));
    assert(m.subrange(40, 48) =~= rec.subrange(40, 48));
    assert(m.subrange(48, 58) =~= rec.subrange(48, 58));
    assert(m.subrange(60, 60 + body.len() as int) =~= body);
}

} // verus!
