//! GNU-variant archive writer: global magic, extended name table, and
//! members with padded bodies.

use vstd::prelude::*;
use crate::fmt::{
    spec_digits, push_digits, push_bytes, bytes_equal, lemma_digits_len, lemma_ten_digits,
};
use crate::header::{
    Header, HeaderV, Error, spec_record, spec_validate, lemma_record_len, NAME_WIDTH,
};

verus! {

/// Limit on the printed size column: values of ten decimal digits at most.
pub const SIZE_FIELD_LIMIT: u64 = 10_000_000_000;

/// The 8-byte global magic that opens every archive.
pub open spec fn spec_magic() -> Seq<u8> {
    seq![33u8, 60u8, 97u8, 114u8, 99u8, 104u8, 62u8, 10u8]
}

/// The identifiers that go to the extended name table: those longer than the
/// 16-byte inline name field, in first-seen order, duplicates kept.
pub open spec fn spec_long_names(ids: Seq<Seq<u8>>) -> Seq<Seq<u8>>
    decreases ids.len(),
{
    if ids.len() == 0 {
        Seq::empty()
    } else {
        let rest = spec_long_names(ids.drop_last());
        if ids.last().len() > NAME_WIDTH {
            rest.push(ids.last())
        } else {
            rest
        }
    }
}

/// The extended name table blob: each registered name followed by the
/// two-byte slash-newline entry terminator.
pub open spec fn spec_table_blob(names: Seq<Seq<u8>>) -> Seq<u8>
    decreases names.len(),
{
    if names.len() == 0 {
        Seq::empty()
    } else {
        spec_table_blob(names.drop_last()) + names.last() + seq![47u8, 10u8]
    }
}

/// Byte offset of the `i`-th registered name within the blob.
pub open spec fn spec_table_offset(names: Seq<Seq<u8>>, i: int) -> nat {
    spec_table_blob(names.take(i)).len()
}

/// Index of the first registered name equal to `id`, or -1 when absent.
pub open spec fn spec_find(names: Seq<Seq<u8>>, id: Seq<u8>) -> int
    decreases names.len(),
{
    if names.len() == 0 {
        -1
    } else if names[0] == id {
        0
    } else {
        let r = spec_find(names.subrange(1, names.len() as int), id);
        if r < 0 {
            -1
        } else {
            1 + r
        }
    }
}

/// The on-wire name field content for `id`: the identifier itself when it
/// fits the 16-byte inline field, else a slash followed by the decimal
/// offset of its name-table entry.
pub open spec fn spec_resolved_name(names: Seq<Seq<u8>>, id: Seq<u8>) -> Seq<u8> {
    if id.len() <= NAME_WIDTH {
        id
    } else {
        seq![47u8] + spec_digits(spec_table_offset(names, spec_find(names, id)), 10)
    }
}

/// The pad byte that follows a body: one newline iff the length is odd.
pub open spec fn spec_body_pad(n: nat) -> Seq<u8> {
    if n % 2 == 1 {
        seq![10u8]
    } else {
        Seq::empty()
    }
}

/// The extended name table written as one ordinary member: a 60-byte record
/// with identifier `//`, all numeric fields zero except the blob length,
/// then the blob itself, padded to an even offset.
pub open spec fn spec_table_member(names: Seq<Seq<u8>>) -> Seq<u8> {
    let blob = spec_table_blob(names);
    spec_record(
        seq![47u8, 47u8],
        HeaderV {
            identifier: seq![47u8, 47u8],
            mtime: 0,
            uid: 0,
            gid: 0,
            mode: 0,
            size: blob.len() as u64,
        },
    ) + blob + spec_body_pad(blob.len())
}

/// Everything written before the first regular member: the global magic,
/// then the symbol table member when one was requested, then the name table
/// member when any long name was registered.
pub open spec fn spec_prelude(sym: Seq<u8>, names: Seq<Seq<u8>>) -> Seq<u8> {
    spec_magic() + sym + if spec_table_blob(names).len() == 0 {
        Seq::<u8>::empty()
    } else {
        spec_table_member(names)
    }
}

/// The bytes of one regular member: the header record with the resolved
/// name field, the body verbatim, and the pad byte iff the body is odd.
pub open spec fn spec_member(names: Seq<Seq<u8>>, h: HeaderV, body: Seq<u8>) -> Seq<u8> {
    spec_record(spec_resolved_name(names, h.identifier), h) + body + spec_body_pad(body.len())
}

/// Length of the members with the given body sizes, laid head to tail: each
/// is a 60-byte record, its body, and the parity pad byte.
pub open spec fn spec_members_len(sizes: Seq<u64>) -> nat
    decreases sizes.len(),
{
    if sizes.len() == 0 {
        0
    } else {
        spec_members_len(sizes.drop_last()) + 60 + sizes.last() as nat + spec_body_pad(
            sizes.last() as nat,
        ).len()
    }
}

/// Byte offset, from the start of the archive, of the header of the `i`-th
/// member, after a prelude of `prelude_len` bytes.
pub open spec fn spec_member_start(prelude_len: nat, sizes: Seq<u64>, i: int) -> nat {
    prelude_len + spec_members_len(sizes.take(i))
}

/// 4-byte big-endian encoding of a 32-bit value.
pub open spec fn spec_be32(v: nat) -> Seq<u8> {
    seq![
        ((v / 0x1000000) % 256) as u8,
        ((v / 0x10000) % 256) as u8,
        ((v / 0x100) % 256) as u8,
        (v % 256) as u8,
    ]
}

/// The offset block of the symbol table: one big-endian word per symbol,
/// the header offset of the member that defines it.
pub open spec fn spec_sym_offsets(
    symbols: Seq<(Seq<u8>, usize)>,
    prelude_len: nat,
    sizes: Seq<u64>,
) -> Seq<u8>
    decreases symbols.len(),
{
    if symbols.len() == 0 {
        Seq::empty()
    } else {
        spec_sym_offsets(symbols.drop_last(), prelude_len, sizes) + spec_be32(
            spec_member_start(prelude_len, sizes, symbols.last().1 as int),
        )
    }
}

/// The string block of the symbol table: each symbol name followed by a
/// terminating zero byte.
pub open spec fn spec_sym_names(symbols: Seq<(Seq<u8>, usize)>) -> Seq<u8>
    decreases symbols.len(),
{
    if symbols.len() == 0 {
        Seq::empty()
    } else {
        spec_sym_names(symbols.drop_last()) + symbols.last().0 + seq![0u8]
    }
}

/// Length of the symbol table content: the count word, one offset word per
/// symbol, and the zero-terminated names.
pub open spec fn spec_symtab_content_len(symbols: Seq<(Seq<u8>, usize)>) -> nat {
    4 + 4 * symbols.len() + spec_sym_names(symbols).len()
}

/// Length of everything before the first member when a symbol table is
/// present: the magic, the symbol table member, and the name table member.
pub open spec fn spec_sym_prelude_len(symbols: Seq<(Seq<u8>, usize)>, names: Seq<Seq<u8>>) -> nat {
    let c = spec_symtab_content_len(symbols);
    let blob = spec_table_blob(names);
    8 + 60 + c + spec_body_pad(c).len() + (if blob.len() == 0 {
        0nat
    } else {
        60 + blob.len() + spec_body_pad(blob.len()).len()
    })
}

/// The symbol table content: the symbol count, then the member-header
/// offsets, then the names.
pub open spec fn spec_symtab_content(
    symbols: Seq<(Seq<u8>, usize)>,
    names: Seq<Seq<u8>>,
    sizes: Seq<u64>,
) -> Seq<u8> {
    spec_be32(symbols.len()) + spec_sym_offsets(
        symbols,
        spec_sym_prelude_len(symbols, names),
        sizes,
    ) + spec_sym_names(symbols)
}

/// The symbol table written as one ordinary member: a 60-byte record with
/// identifier `/` and zeroed numeric fields, the content, and the parity
/// pad byte.
pub open spec fn spec_symtab_member(
    symbols: Seq<(Seq<u8>, usize)>,
    names: Seq<Seq<u8>>,
    sizes: Seq<u64>,
) -> Seq<u8> {
    let content = spec_symtab_content(symbols, names, sizes);
    spec_record(
        seq![47u8],
        HeaderV {
            identifier: seq![47u8],
            mtime: 0,
            uid: 0,
            gid: 0,
            mode: 0,
            size: content.len() as u64,
        },
    ) + content + spec_body_pad(content.len())
}

/// The offset block is four bytes per symbol.
pub proof fn lemma_sym_offsets_len(symbols: Seq<(Seq<u8>, usize)>, prelude_len: nat, sizes: Seq<u64>)
    ensures
        spec_sym_offsets(symbols, prelude_len, sizes).len() == 4 * symbols.len(),
    decreases symbols.len(),
{
    if symbols.len() > 0 {
        lemma_sym_offsets_len(symbols.drop_last(), prelude_len, sizes);
    }
}

/// The content's length matches its closed-form count.
pub proof fn lemma_symtab_content_len(
    symbols: Seq<(Seq<u8>, usize)>,
    names: Seq<Seq<u8>>,
    sizes: Seq<u64>,
)
    ensures
        spec_symtab_content(symbols, names, sizes).len() == spec_symtab_content_len(symbols),
{
    lemma_sym_offsets_len(symbols, spec_sym_prelude_len(symbols, names), sizes);
}

/// A partial string block never exceeds the whole.
pub proof fn lemma_sym_names_take_len(symbols: Seq<(Seq<u8>, usize)>, k: int)
    requires
        0 <= k <= symbols.len(),
    ensures
        spec_sym_names(symbols.take(k)).len() <= spec_sym_names(symbols).len(),
    decreases symbols.len() - k,
{
    if k < symbols.len() {
        lemma_sym_names_take_len(symbols.drop_last(), k);
        assert(symbols.drop_last().take(k) =~= symbols.take(k));
    } else {
        assert(symbols.take(k) =~= symbols);
    }
}

/// A partial member run never exceeds the whole.
pub proof fn lemma_members_len_take(sizes: Seq<u64>, k: int)
    requires
        0 <= k <= sizes.len(),
    ensures
        spec_members_len(sizes.take(k)) <= spec_members_len(sizes),
    decreases sizes.len() - k,
{
    if k < sizes.len() {
        lemma_members_len_take(sizes.drop_last(), k);
        assert(sizes.drop_last().take(k) =~= sizes.take(k));
    } else {
        assert(sizes.take(k) =~= sizes);
    }
}

/// The prelude written for a requested symbol table is exactly as long as
/// the offsets inside that table assume: the magic, a 60-byte record with
/// the padded content for the symbol table, and the same for the name table
/// when any long name was registered.  Members appended after it therefore
/// start at the offsets the table records.
pub proof fn lemma_sym_prelude_len(
    symbols: Seq<(Seq<u8>, usize)>,
    names: Seq<Seq<u8>>,
    sizes: Seq<u64>,
)
    requires
        spec_table_blob(names).len() < SIZE_FIELD_LIMIT,
        spec_symtab_content_len(symbols) < SIZE_FIELD_LIMIT,
    ensures
        spec_prelude(spec_symtab_member(symbols, names, sizes), names).len()
            == spec_sym_prelude_len(symbols, names),
{
    let content = spec_symtab_content(symbols, names, sizes);
    lemma_symtab_content_len(symbols, names, sizes);
    lemma_ten_digits(content.len());
    lemma_record_len(
        seq![47u8],
        HeaderV {
            identifier: seq![47u8],
            mtime: 0,
            uid: 0,
            gid: 0,
            mode: 0,
            size: content.len() as u64,
        },
    );
    let blob = spec_table_blob(names);
    if blob.len() > 0 {
        lemma_ten_digits(blob.len());
        lemma_record_len(
            seq![47u8, 47u8],
            HeaderV {
                identifier: seq![47u8, 47u8],
                mtime: 0,
                uid: 0,
                gid: 0,
                mode: 0,
                size: blob.len() as u64,
            },
        );
    }
}

/// One member occupies its 60-byte record, its body, and the parity pad, so
/// consecutive appends advance the stream by exactly the strides that
/// `spec_members_len` adds up.
pub proof fn lemma_member_len(names: Seq<Seq<u8>>, h: HeaderV, body: Seq<u8>)
    requires
        h.valid(),
        h.size == body.len(),
        body.len() < SIZE_FIELD_LIMIT,
        spec_table_blob(names).len() < SIZE_FIELD_LIMIT,
        h.identifier.len() > NAME_WIDTH ==> 0 <= spec_find(names, h.identifier) < names.len(),
    ensures
        spec_member(names, h, body).len() == 60 + body.len() + spec_body_pad(body.len()).len(),
{
    let resolved = spec_resolved_name(names, h.identifier);
    lemma_ten_digits(h.size as nat);
    if h.identifier.len() > NAME_WIDTH {
        let i = spec_find(names, h.identifier);
        let off = spec_table_offset(names, i);
        lemma_blob_take_len(names, i);
        lemma_ten_digits(off);
        lemma_digits_len(off, 10);
    }
    lemma_record_len(resolved, h);
}

/// A whole archive: the prelude, then the members in order, each one a
/// record with its resolved name, its body, and the parity pad.  Successive
/// calls of `append` produce exactly this byte string.
pub open spec fn spec_archive(
    sym: Seq<u8>,
    names: Seq<Seq<u8>>,
    members: Seq<(HeaderV, Seq<u8>)>,
) -> Seq<u8>
    decreases members.len(),
{
    if members.len() == 0 {
        spec_prelude(sym, names)
    } else {
        spec_archive(sym, names, members.drop_last()) + spec_member(
            names,
            members.last().0,
            members.last().1,
        )
    }
}

/// The archive grows by member strides: after the prelude, the first `i`
/// members occupy exactly the bytes that `spec_members_len` adds up over
/// their sizes, so the header of member `i` always starts right there.
pub proof fn lemma_archive_prefix_len(
    sym: Seq<u8>,
    names: Seq<Seq<u8>>,
    members: Seq<(HeaderV, Seq<u8>)>,
    i: int,
)
    requires
        0 <= i <= members.len(),
        spec_table_blob(names).len() < SIZE_FIELD_LIMIT,
        forall|j: int|
            0 <= j < members.len() ==> {
                &&& (#[trigger] members[j]).0.valid()
                &&& members[j].0.size == members[j].1.len()
                &&& members[j].1.len() < SIZE_FIELD_LIMIT
                &&& (members[j].0.identifier.len() > NAME_WIDTH ==> 0 <= spec_find(
                    names,
                    members[j].0.identifier,
                ) < names.len())
            },
    ensures
        spec_archive(sym, names, members.take(i)).len() == spec_prelude(sym, names).len()
            + spec_members_len(members.map_values(|m: (HeaderV, Seq<u8>)| m.0.size).take(i)),
    decreases i,
{
    let szs = members.map_values(|m: (HeaderV, Seq<u8>)| m.0.size);
    if i == 0 {
        assert(members.take(0) =~= Seq::<(HeaderV, Seq<u8>)>::empty());
        assert(szs.take(0) =~= Seq::<u64>::empty());
    } else {
        lemma_archive_prefix_len(sym, names, members, i - 1);
        assert(members.take(i).drop_last() =~= members.take(i - 1));
        assert(szs.take(i).drop_last() =~= szs.take(i - 1));
        lemma_member_len(names, members[i - 1].0, members[i - 1].1);
    }
}

/// The offsets a requested symbol table stores are the true header
/// positions: when the members are appended in the declared order with the
/// declared sizes, the first `i` of them end exactly where the table says
/// member `i` begins.
pub proof fn lemma_symtab_offsets_hold(
    symbols: Seq<(Seq<u8>, usize)>,
    names: Seq<Seq<u8>>,
    members: Seq<(HeaderV, Seq<u8>)>,
    i: int,
)
    requires
        0 <= i <= members.len(),
        spec_table_blob(names).len() < SIZE_FIELD_LIMIT,
        spec_symtab_content_len(symbols) < SIZE_FIELD_LIMIT,
        forall|j: int|
            0 <= j < members.len() ==> {
                &&& (#[trigger] members[j]).0.valid()
                &&& members[j].0.size == members[j].1.len()
                &&& members[j].1.len() < SIZE_FIELD_LIMIT
                &&& (members[j].0.identifier.len() > NAME_WIDTH ==> 0 <= spec_find(
                    names,
                    members[j].0.identifier,
                ) < names.len())
            },
    ensures
        ({
            let sizes = members.map_values(|m: (HeaderV, Seq<u8>)| m.0.size);
            spec_archive(spec_symtab_member(symbols, names, sizes), names, members.take(i)).len()
                == spec_member_start(spec_sym_prelude_len(symbols, names), sizes, i)
        }),
{
    let sizes = members.map_values(|m: (HeaderV, Seq<u8>)| m.0.size);
    lemma_sym_prelude_len(symbols, names, sizes);
    lemma_archive_prefix_len(spec_symtab_member(symbols, names, sizes), names, members, i);
}

/// A first match at index `i` is what `spec_find` returns.
pub proof fn lemma_find_first(names: Seq<Seq<u8>>, id: Seq<u8>, i: int)
    requires
        0 <= i < names.len(),
        names[i] == id,
        forall|j: int| 0 <= j < i ==> names[j] != id,
    ensures
        spec_find(names, id) == i,
    decreases i,
{
    if i > 0 {
        let tail = names.subrange(1, names.len() as int);
        lemma_find_first(tail, id, i - 1);
    }
}

/// When no registered name equals `id`, `spec_find` reports absence.
pub proof fn lemma_find_absent(names: Seq<Seq<u8>>, id: Seq<u8>)
    requires
        forall|j: int| 0 <= j < names.len() ==> names[j] != id,
    ensures
        spec_find(names, id) == -1,
    decreases names.len(),
{
    if names.len() > 0 {
        let tail = names.subrange(1, names.len() as int);
        lemma_find_absent(tail, id);
    }
}

/// The blob over a prefix never shrinks as names are added.
pub proof fn lemma_blob_take_len(names: Seq<Seq<u8>>, i: int)
    requires
        0 <= i <= names.len(),
    ensures
        spec_table_blob(names.take(i)).len() <= spec_table_blob(names).len(),
    decreases names.len() - i,
{
    if i < names.len() {
        lemma_blob_take_len(names.drop_last(), i);
        assert(names.drop_last().take(i) =~= names.take(i));
    } else {
        assert(names.take(i) =~= names);
    }
}

/// The blob decomposes at entry `i`: its offset lies within the blob, the
/// literal name sits at that offset, and the entry terminator follows it.
pub proof fn lemma_blob_entry(names: Seq<Seq<u8>>, i: int)
    requires
        0 <= i < names.len(),
    ensures
        spec_table_offset(names, i) + names[i].len() + 2 <= spec_table_blob(names).len(),
        spec_table_blob(names).subrange(
            spec_table_offset(names, i) as int,
            spec_table_offset(names, i) + names[i].len() as int,
        ) == names[i],
        spec_table_blob(names)[spec_table_offset(names, i) + names[i].len() as int] == 47u8,
        spec_table_blob(names)[spec_table_offset(names, i) + names[i].len() + 1int] == 10u8,
    decreases names.len(),
{
    let blob = spec_table_blob(names);
    let off = spec_table_offset(names, i) as int;
    if i == names.len() - 1 {
        assert(names.take(i) =~= names.drop_last());
        assert(blob.subrange(off, off + names[i].len()) =~= names[i]);
    } else {
        lemma_blob_entry(names.drop_last(), i);
        assert(names.drop_last().take(i) =~= names.take(i));
        let prev = spec_table_blob(names.drop_last());
        assert(blob.subrange(off, off + names[i].len()) =~= prev.subrange(
            off,
            off + names[i].len(),
        ));
    }
}

/// Copies a byte string into an owned vector.
fn to_vec(data: &[u8]) -> (r: Vec<u8>)
    ensures
        r@ == data@,
{
    let mut v: Vec<u8> = Vec::new();
    push_bytes(data, &mut v);
    proof {
        assert(v@ =~= data@);
    }
    v
}

/// Appends the 4-byte big-endian encoding of `v`.
fn push_be32(v: u64, out: &mut Vec<u8>)
    requires
        v < 0x1_0000_0000,
    ensures
        final(out)@ == old(out)@ + spec_be32(v as nat),
{
    out.push(((v / 0x1000000) % 256) as u8);
    out.push(((v / 0x10000) % 256) as u8);
    out.push(((v / 0x100) % 256) as u8);
    out.push((v % 256) as u8);
    assert(out@ =~= old(out)@ + spec_be32(v as nat));
}

/// Finds the first registered name equal to `id`.
fn find_name(names: &Vec<Vec<u8>>, id: &[u8]) -> (r: Option<usize>)
    ensures
        match r {
            Some(i) => i < names@.len() && names@[i as int]@ == id@ && spec_find(
                names@.map_values(|v: Vec<u8>| v@),
                id@,
            ) == i,
            None => spec_find(names@.map_values(|v: Vec<u8>| v@), id@) == -1,
        },
{
    let mut k: usize = 0;
    while k < names.len()
        invariant
            k <= names@.len(),
            forall|j: int| 0 <= j < k ==> names@[j]@ != id@,
        decreases names@.len() - k,
    {
        if bytes_equal(names[k].as_slice(), id) {
            proof {
                lemma_find_first(names@.map_values(|v: Vec<u8>| v@), id@, k as int);
            }
            return Some(k);
        }
        k = k + 1;
    }
    proof {
        lemma_find_absent(names@.map_values(|v: Vec<u8>| v@), id@);
    }
    None
}

/// Streaming GNU archive writer.  It owns the growing byte stream.  The
/// complete set of member identifiers is committed up front, because the
/// name table member must be written before any member that references it;
/// the global magic and the name table go out with the first append.
pub struct GnuBuilder {
    output: Vec<u8>,
    long_names: Vec<Vec<u8>>,
    name_offsets: Vec<u64>,
    name_table: Vec<u8>,
    symtab: Vec<u8>,
    started: bool,
}

/// Mathematical model of the builder: the bytes written so far, the
/// registered long names, the complete symbol table member (empty when none
/// was requested), and whether the prelude has been written.
pub ghost struct BuilderV {
    pub bytes: Seq<u8>,
    pub names: Seq<Seq<u8>>,
    pub sym: Seq<u8>,
    pub started: bool,
}

impl View for GnuBuilder {
    type V = BuilderV;

    closed spec fn view(&self) -> BuilderV {
        BuilderV {
            bytes: self.output@,
            names: self.long_names@.map_values(|v: Vec<u8>| v@),
            sym: self.symtab@,
            started: self.started,
        }
    }
}

impl GnuBuilder {
    /// Internal bookkeeping is consistent: the stored blob and offsets match
    /// the registered names, every registered name is long, the blob fits
    /// the size column, and the stream length stays even, so that every
    /// member header starts at an even absolute offset.
    pub closed spec fn wf(&self) -> bool {
        &&& self.name_offsets@.len() == self.long_names@.len()
        &&& self.name_table@ == spec_table_blob(self@.names)
        &&& forall|i: int|
            0 <= i < self.name_offsets@.len() ==> self.name_offsets@[i] as nat == spec_table_offset(
                self@.names,
                i,
            )
        &&& forall|i: int| 0 <= i < self@.names.len() ==> self@.names[i].len() > NAME_WIDTH
        &&& self.name_table@.len() < SIZE_FIELD_LIMIT
        &&& self@.sym.len() % 2 == 0
        &&& self@.bytes.len() % 2 == 0
        &&& (!self@.started ==> self@.bytes.len() == 0)
    }

    /// Creates a builder that commits up front to the complete set of member
    /// identifiers: each one longer than the inline field is interned in the
    /// extended name table, in order, duplicates kept.  The table must fit
    /// the ten-column printed size field.
    pub fn new(identifiers: Vec<Vec<u8>>) -> (b: GnuBuilder)
        requires
            spec_table_blob(spec_long_names(identifiers@.map_values(|v: Vec<u8>| v@))).len()
                < SIZE_FIELD_LIMIT,
        ensures
            b.wf(),
            !b@.started,
            b@.bytes == Seq::<u8>::empty(),
            b@.sym == Seq::<u8>::empty(),
            b@.names == spec_long_names(identifiers@.map_values(|v: Vec<u8>| v@)),
    {
        let ghost all_ids = identifiers@.map_values(|v: Vec<u8>| v@);
        let mut long_names: Vec<Vec<u8>> = Vec::new();
        let mut name_offsets: Vec<u64> = Vec::new();
        let mut name_table: Vec<u8> = Vec::new();
        let mut i: usize = 0;
        while i < identifiers.len()
            invariant
                i <= identifiers@.len(),
                all_ids == identifiers@.map_values(|v: Vec<u8>| v@),
                long_names@.map_values(|v: Vec<u8>| v@) == spec_long_names(
                    all_ids.take(i as int),
                ),
                name_offsets@.len() == long_names@.len(),
                name_table@ == spec_table_blob(long_names@.map_values(|v: Vec<u8>| v@)),
                forall|j: int|
                    0 <= j < name_offsets@.len() ==> name_offsets@[j] as nat == spec_table_offset(
                        long_names@.map_values(|v: Vec<u8>| v@),
                        j,
                    ),
                forall|j: int|
                    0 <= j < long_names@.len() ==> #[trigger] long_names@[j]@.len() > NAME_WIDTH,
            decreases identifiers@.len() - i,
        {
            let ghost prev_names = long_names@.map_values(|v: Vec<u8>| v@);
            if identifiers[i].len() > 16 {
                name_offsets.push(name_table.len() as u64);
                let copy = to_vec(identifiers[i].as_slice());
                push_bytes(copy.as_slice(), &mut name_table);
                name_table.push(47);
                name_table.push(10);
                long_names.push(copy);
                proof {
                    let cur_names = long_names@.map_values(|v: Vec<u8>| v@);
                    assert(cur_names =~= prev_names.push(all_ids[i as int]));
                    assert(cur_names.drop_last() =~= prev_names);
                    assert(name_table@ =~= spec_table_blob(cur_names));
                    assert(cur_names.take(cur_names.len() - 1) =~= prev_names);
                    assert forall|j: int|
                        0 <= j < name_offsets@.len() implies name_offsets@[j] as nat
                        == spec_table_offset(cur_names, j) by {
                        if j < name_offsets@.len() - 1 {
                            assert(cur_names.take(j) =~= prev_names.take(j));
                        }
                    }
                }
            }
            i = i + 1;
            proof {
                assert(all_ids.take(i as int).drop_last() =~= all_ids.take(i as int - 1));
                assert(long_names@.map_values(|v: Vec<u8>| v@) =~= spec_long_names(
                    all_ids.take(i as int),
                ));
            }
        }
        proof {
            assert(all_ids.take(identifiers@.len() as int) =~= all_ids);
        }
        GnuBuilder {
            output: Vec::new(),
            long_names,
            name_offsets,
            name_table,
            symtab: Vec::new(),
            started: false,
        }
    }

    /// Creates a builder that, besides interning long names, prepares a
    /// symbol lookup table member.  Since every offset in that table depends
    /// on the sizes of all earlier members, the complete member list is
    /// committed up front: `identifiers` and `sizes` describe the members in
    /// the order they will be appended, and each symbol pairs a name with
    /// the index of the member that defines it.  The table maps each name to
    /// the byte offset of that member's header, and the whole archive must
    /// fit the table's 32-bit offset words.
    #[verifier::rlimit(100)]
    pub fn with_symbol_table(
        identifiers: Vec<Vec<u8>>,
        sizes: Vec<u64>,
        symbols: Vec<(Vec<u8>, usize)>,
    ) -> (b: GnuBuilder)
        requires
            ({
                let ids = identifiers@.map_values(|v: Vec<u8>| v@);
                let syms = symbols@.map_values(|p: (Vec<u8>, usize)| (p.0@, p.1));
                &&& forall|k: int| 0 <= k < syms.len() ==> (#[trigger] syms[k].1) < sizes@.len()
                &&& spec_table_blob(spec_long_names(ids)).len() < SIZE_FIELD_LIMIT
                &&& spec_sym_prelude_len(syms, spec_long_names(ids)) + spec_members_len(sizes@)
                    < 0x1_0000_0000
            }),
        ensures
            b.wf(),
            !b@.started,
            b@.bytes == Seq::<u8>::empty(),
            b@.names == spec_long_names(identifiers@.map_values(|v: Vec<u8>| v@)),
            b@.sym == spec_symtab_member(
                symbols@.map_values(|p: (Vec<u8>, usize)| (p.0@, p.1)),
                spec_long_names(identifiers@.map_values(|v: Vec<u8>| v@)),
                sizes@,
            ),
    {
        let ghost syms = symbols@.map_values(|p: (Vec<u8>, usize)| (p.0@, p.1));
        let mut b = Self::new(identifiers);
        let ghost names = b@.names;
        let ghost prelude = spec_sym_prelude_len(syms, names);

        // the count word and the string block fix the content length
        let n = symbols.len();
        let mut names_len: u64 = 0;
        let mut k: usize = 0;
        while k < n
            invariant
                k <= n,
                n == symbols@.len(),
                syms == symbols@.map_values(|p: (Vec<u8>, usize)| (p.0@, p.1)),
                names_len == spec_sym_names(syms.take(k as int)).len(),
                spec_symtab_content_len(syms) < 0x1_0000_0000,
            decreases n - k,
        {
            proof {
                assert(syms.take(k as int + 1).drop_last() =~= syms.take(k as int));
                lemma_sym_names_take_len(syms, k as int + 1);
            }
            names_len = names_len + symbols[k].0.len() as u64 + 1;
            k = k + 1;
        }
        proof {
            assert(syms.take(n as int) =~= syms);
        }
        let content_len: u64 = 4 + 4 * (n as u64) + names_len;
        assert(content_len as nat == spec_symtab_content_len(syms));

        // everything before the first member
        let table_len: u64 = b.name_table.len() as u64;
        let prelude_len: u64 = 8 + 60 + content_len + (content_len % 2) + (if table_len == 0 {
            0
        } else {
            60 + table_len + (table_len % 2)
        });
        assert(prelude_len as nat == prelude);

        // header offset of each member
        let mut offs: Vec<u64> = Vec::new();
        let mut cur: u64 = prelude_len;
        let mut j: usize = 0;
        while j < sizes.len()
            invariant
                j <= sizes@.len(),
                offs@.len() == j,
                prelude_len as nat == prelude,
                cur as nat == prelude + spec_members_len(sizes@.take(j as int)),
                forall|i: int|
                    0 <= i < j ==> #[trigger] offs@[i] as nat == spec_member_start(
                        prelude,
                        sizes@,
                        i,
                    ),
                prelude + spec_members_len(sizes@) < 0x1_0000_0000,
            decreases sizes@.len() - j,
        {
            offs.push(cur);
            proof {
                assert(sizes@.take(j as int + 1).drop_last() =~= sizes@.take(j as int));
                lemma_members_len_take(sizes@, j as int + 1);
            }
            let sz = sizes[j];
            cur = cur + 60 + sz + (sz % 2);
            j = j + 1;
        }

        // the content: count, offsets, names
        let mut content: Vec<u8> = Vec::new();
        push_be32(n as u64, &mut content);
        let mut k2: usize = 0;
        while k2 < n
            invariant
                k2 <= n,
                n == symbols@.len(),
                syms == symbols@.map_values(|p: (Vec<u8>, usize)| (p.0@, p.1)),
                content@ == spec_be32(n as nat) + spec_sym_offsets(
                    syms.take(k2 as int),
                    prelude,
                    sizes@,
                ),
                offs@.len() == sizes@.len(),
                forall|i: int|
                    0 <= i < offs@.len() ==> #[trigger] offs@[i] as nat == spec_member_start(
                        prelude,
                        sizes@,
                        i,
                    ),
                forall|i: int| 0 <= i < syms.len() ==> (#[trigger] syms[i].1) < sizes@.len(),
                prelude + spec_members_len(sizes@) < 0x1_0000_0000,
            decreases n - k2,
        {
            let idx = symbols[k2].1;
            proof {
                assert(syms[k2 as int].1 == idx);
                lemma_members_len_take(sizes@, idx as int);
            }
            push_be32(offs[idx], &mut content);
            proof {
                assert(syms.take(k2 as int + 1).drop_last() =~= syms.take(k2 as int));
                assert(content@ =~= spec_be32(n as nat) + spec_sym_offsets(
                    syms.take(k2 as int + 1),
                    prelude,
                    sizes@,
                ));
            }
            k2 = k2 + 1;
        }
        proof {
            assert(syms.take(n as int) =~= syms);
        }
        let mut k3: usize = 0;
        while k3 < n
            invariant
                k3 <= n,
                n == symbols@.len(),
                syms == symbols@.map_values(|p: (Vec<u8>, usize)| (p.0@, p.1)),
                content@ == spec_be32(n as nat) + spec_sym_offsets(syms, prelude, sizes@)
                    + spec_sym_names(syms.take(k3 as int)),
            decreases n - k3,
        {
            push_bytes(symbols[k3].0.as_slice(), &mut content);
            content.push(0);
            proof {
                assert(syms.take(k3 as int + 1).drop_last() =~= syms.take(k3 as int));
                assert(content@ =~= spec_be32(n as nat) + spec_sym_offsets(syms, prelude, sizes@)
                    + spec_sym_names(syms.take(k3 as int + 1)));
            }
            k3 = k3 + 1;
        }
        proof {
            assert(syms.take(n as int) =~= syms);
            assert(content@ =~= spec_symtab_content(syms, names, sizes@));
            lemma_symtab_content_len(syms, names, sizes@);
            lemma_ten_digits(content@.len() as nat);
        }

        // wrap the content as one ordinary member with identifier `/`
        let mut sid: Vec<u8> = Vec::new();
        sid.push(47);
        let mut sname: Vec<u8> = Vec::new();
        sname.push(47);
        let mut sh = Header::new(sid, content.len() as u64);
        sh.set_mode(0);
        let mut symtab: Vec<u8> = Vec::new();
        proof {
            lemma_record_len(sname@, sh@);
        }
        sh.push_record(&sname, &mut symtab);
        push_bytes(content.as_slice(), &mut symtab);
        if content.len() % 2 == 1 {
            symtab.push(10);
        }
        proof {
            assert(symtab@ =~= spec_symtab_member(syms, names, sizes@));
        }
        b.symtab = symtab;
        b
    }

    /// Read-only view of the bytes written so far.
    pub fn as_bytes(&self) -> (r: &[u8])
        ensures
            r@ == self@.bytes,
    {
        self.output.as_slice()
    }

    /// Consumes the builder and hands the written bytes to the caller.
    pub fn into_inner(self) -> (r: Vec<u8>)
        ensures
            r@ == self@.bytes,
    {
        self.output
    }

    /// Writes the global magic and, when any long name was registered, the
    /// extended name table member.
    fn write_prelude(&mut self)
        requires
            old(self).wf(),
            !old(self)@.started,
        ensures
            final(self).wf(),
            final(self)@.started,
            final(self)@.names == old(self)@.names,
            final(self)@.sym == old(self)@.sym,
            final(self)@.bytes == spec_prelude(old(self)@.sym, old(self)@.names),
    {
        let ghost names = old(self)@.names;
        let ghost sym = old(self)@.sym;
        self.output.push(33);
        self.output.push(60);
        self.output.push(97);
        self.output.push(114);
        self.output.push(99);
        self.output.push(104);
        self.output.push(62);
        self.output.push(10);
        proof {
            assert(self.output@ =~= spec_magic());
        }
        push_bytes(self.symtab.as_slice(), &mut self.output);
        if self.name_table.len() > 0 {
            let mut tid: Vec<u8> = Vec::new();
            tid.push(47);
            tid.push(47);
            let mut tname: Vec<u8> = Vec::new();
            tname.push(47);
            tname.push(47);
            let mut th = Header::new(tid, self.name_table.len() as u64);
            th.set_mode(0);
            proof {
                lemma_ten_digits(self.name_table@.len() as nat);
                lemma_record_len(tname@, th@);
            }
            th.push_record(&tname, &mut self.output);
            push_bytes(self.name_table.as_slice(), &mut self.output);
            if self.name_table.len() % 2 == 1 {
                self.output.push(10);
            }
            proof {
                assert(self.output@ =~= spec_prelude(sym, names));
            }
        } else {
            proof {
                assert(self.output@ =~= spec_prelude(sym, names));
            }
        }
        self.started = true;
    }

    /// Appends one member.  The identifier is resolved first (inline when it
    /// fits the 16-byte field, else its name table reference; a long name
    /// never registered is refused), then the header is validated; only
    /// then, with the first member preceded by the prelude, the 60-byte
    /// record, the body and the pad byte go out.  On any error nothing is
    /// written.
    #[verifier::rlimit(60)]
    pub fn append(&mut self, header: &Header, body: &[u8]) -> (r: Result<(), Error>)
        requires
            old(self).wf(),
            header@.size == body@.len(),
            body@.len() < SIZE_FIELD_LIMIT,
        ensures
            final(self).wf(),
            final(self)@.names == old(self)@.names,
            final(self)@.sym == old(self)@.sym,
            final(self)@.bytes.len() % 2 == 0,
            ({
                let names = old(self)@.names;
                let id = header@.identifier;
                if id.len() > NAME_WIDTH && spec_find(names, id) < 0 {
                    r == Err::<(), Error>(Error::NameTableRequired) && final(self)@ == old(self)@
                } else if spec_validate(header@) is Err {
                    r == spec_validate(header@) && final(self)@ == old(self)@
                } else {
                    &&& r == Ok::<(), Error>(())
                    &&& final(self)@.started
                    &&& final(self)@.bytes == (if old(self)@.started {
                        old(self)@.bytes
                    } else {
                        spec_prelude(old(self)@.sym, names)
                    }) + spec_member(names, header@, body@)
                }
            }),
    {
        let ghost names = old(self)@.names;
        let ident = header.identifier();
        let mut name_buf: Vec<u8> = Vec::new();
        if ident.len() > 16 {
            match find_name(&self.long_names, ident) {
                None => {
                    return Err(Error::NameTableRequired);
                },
                Some(k) => {
                    let off = self.name_offsets[k];
                    name_buf.push(47);
                    push_digits(off, 10, &mut name_buf);
                    proof {
                        lemma_blob_take_len(names, k as int);
                        lemma_ten_digits(off as nat);
                        lemma_digits_len(off as nat, 10);
                        assert(name_buf@ =~= spec_resolved_name(names, ident@));
                    }
                },
            }
        } else {
            push_bytes(ident, &mut name_buf);
            proof {
                assert(name_buf@ =~= spec_resolved_name(names, ident@));
            }
        }
        match header.validate() {
            Err(e) => {
                return Err(e);
            },
            Ok(()) => {},
        }
        if !self.started {
            self.write_prelude();
        }
        let ghost prefix = self@.bytes;
        proof {
            lemma_ten_digits(header@.size as nat);
            lemma_record_len(name_buf@, header@);
        }
        header.push_record(&name_buf, &mut self.output);
        push_bytes(body, &mut self.output);
        if body.len() % 2 == 1 {
            self.output.push(10);
        }
        proof {
            assert(self.output@ =~= prefix + spec_member(names, header@, body@));
        }
        Ok(())
    }
}

} // verus!
