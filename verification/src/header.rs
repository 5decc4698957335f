//! Archive member headers: metadata, width validation, and the fixed-width
//! 60-byte on-wire record.

use vstd::prelude::*;
use crate::fmt::{
    spec_num_digits, spec_digits, spec_pad, num_digits, push_padded_digits, push_padded_bytes,
    lemma_digits_len,
};

verus! {

/// Width in columns of each numeric field of the on-wire record.
pub const MTIME_WIDTH: u64 = 12;

pub const UID_WIDTH: u64 = 6;

pub const GID_WIDTH: u64 = 6;

pub const MODE_WIDTH: u64 = 8;

pub const SIZE_WIDTH: u64 = 10;

/// Width in columns of the inline name field.
pub const NAME_WIDTH: u64 = 16;

/// Length in bytes of one on-wire header record.
pub const RECORD_LEN: u64 = 60;

/// Which numeric header field overflowed its printed column width.
#[derive(Clone, Copy, Debug, PartialEq, Eq, Structural)]
pub enum Field {
    Mtime,
    Uid,
    Gid,
    Mode,
}

/// Errors raised while building an archive.
#[derive(Clone, Copy, Debug, PartialEq, Eq, Structural)]
pub enum Error {
    /// A numeric field's value needs more printed digits than its fixed
    /// column width allows; carries the field and the offending value.
    FieldOverflow(Field, u64),
    /// An identifier longer than the inline name field was appended without
    /// having been registered for the extended name table.
    NameTableRequired,
    /// The underlying byte sink failed; raised by unverified I/O callers
    /// that drain the builder's output, never by this library itself.
    SinkFailure,
}

/// Mathematical model of one member's header.
pub ghost struct HeaderV {
    pub identifier: Seq<u8>,
    pub mtime: u64,
    pub uid: u32,
    pub gid: u32,
    pub mode: u32,
    pub size: u64,
}

impl HeaderV {
    /// Every numeric field fits its printed column width.
    pub open spec fn valid(self) -> bool {
        &&& spec_num_digits(self.mtime as nat, 10) <= MTIME_WIDTH
        &&& spec_num_digits(self.uid as nat, 10) <= UID_WIDTH
        &&& spec_num_digits(self.gid as nat, 10) <= GID_WIDTH
        &&& spec_num_digits(self.mode as nat, 8) <= MODE_WIDTH
    }
}

/// What `validate` returns: the first field, in checking order, whose value
/// overflows its column width, or `Ok` when all four fit.
pub open spec fn spec_validate(h: HeaderV) -> Result<(), Error> {
    if spec_num_digits(h.mtime as nat, 10) > MTIME_WIDTH {
        Err(Error::FieldOverflow(Field::Mtime, h.mtime))
    } else if spec_num_digits(h.uid as nat, 10) > UID_WIDTH {
        Err(Error::FieldOverflow(Field::Uid, h.uid as u64))
    } else if spec_num_digits(h.gid as nat, 10) > GID_WIDTH {
        Err(Error::FieldOverflow(Field::Gid, h.gid as u64))
    } else if spec_num_digits(h.mode as nat, 8) > MODE_WIDTH {
        Err(Error::FieldOverflow(Field::Mode, h.mode as u64))
    } else {
        Ok(())
    }
}

/// The 60-byte on-wire header record: a 16-column name field (already
/// resolved to its inline or `/<offset>` form), 12-column decimal mtime,
/// 6-column decimal uid and gid, 8-column octal mode, 10-column decimal
/// size, and the backtick-newline end marker.
pub open spec fn spec_record(name: Seq<u8>, h: HeaderV) -> Seq<u8> {
    spec_pad(name, NAME_WIDTH as nat) + spec_pad(
        spec_digits(h.mtime as nat, 10),
        MTIME_WIDTH as nat,
    ) + spec_pad(spec_digits(h.uid as nat, 10), UID_WIDTH as nat) + spec_pad(
        spec_digits(h.gid as nat, 10),
        GID_WIDTH as nat,
    ) + spec_pad(spec_digits(h.mode as nat, 8), MODE_WIDTH as nat) + spec_pad(
        spec_digits(h.size as nat, 10),
        SIZE_WIDTH as nat,
    ) + seq![96u8, 10u8]
}

/// A record is exactly 60 bytes once every field fits its width.
pub proof fn lemma_record_len(name: Seq<u8>, h: HeaderV)
    requires
        name.len() <= NAME_WIDTH,
        h.valid(),
        spec_num_digits(h.size as nat, 10) <= SIZE_WIDTH,
    ensures
        spec_record(name, h).len() == RECORD_LEN,
{
    lemma_digits_len(h.mtime as nat, 10);
    lemma_digits_len(h.uid as nat, 10);
    lemma_digits_len(h.gid as nat, 10);
    lemma_digits_len(h.mode as nat, 8);
    lemma_digits_len(h.size as nat, 10);
}

/// Any header whose mtime is below ten to the twelfth, whose uid and gid
/// are below ten to the sixth, and whose mode is octal-representable in
/// eight digits (below eight to the eighth), passes validation.
pub proof fn lemma_in_range_header_valid(h: HeaderV)
    requires
        h.mtime < 1_000_000_000_000,
        h.uid < 1_000_000,
        h.gid < 1_000_000,
        h.mode < 16_777_216,
    ensures
        h.valid(),
        spec_validate(h) is Ok,
{
    assert(vstd::arithmetic::power::pow(10, 12) == 1_000_000_000_000) by {
        reveal_with_fuel(vstd::arithmetic::power::pow, 13);
    }
    assert(vstd::arithmetic::power::pow(10, 6) == 1_000_000) by {
        reveal_with_fuel(vstd::arithmetic::power::pow, 7);
    }
    assert(vstd::arithmetic::power::pow(8, 8) == 16_777_216) by {
        reveal_with_fuel(vstd::arithmetic::power::pow, 9);
    }
    crate::fmt::lemma_num_digits_bound(h.mtime as nat, 10, 12);
    crate::fmt::lemma_num_digits_bound(h.uid as nat, 10, 6);
    crate::fmt::lemma_num_digits_bound(h.gid as nat, 10, 6);
    crate::fmt::lemma_num_digits_bound(h.mode as nat, 8, 8);
}

/// Representation of an archive entry header.
pub struct Header {
    identifier: Vec<u8>,
    mtime: u64,
    uid: u32,
    gid: u32,
    mode: u32,
    size: u64,
}

impl View for Header {
    type V = HeaderV;

    closed spec fn view(&self) -> HeaderV {
        HeaderV {
            identifier: self.identifier@,
            mtime: self.mtime,
            uid: self.uid,
            gid: self.gid,
            mode: self.mode,
            size: self.size,
        }
    }
}

impl Header {
    /// Creates a header with the given file identifier and size; the mode
    /// defaults to octal 644 and all other fields to zero.
    pub fn new(identifier: Vec<u8>, size: u64) -> (h: Header)
        ensures
            h@ == (HeaderV {
                identifier: identifier@,
                mtime: 0,
                uid: 0,
                gid: 0,
                mode: 0o644,
                size,
            }),
    {
        Header { identifier, mtime: 0, uid: 0, gid: 0, mode: 0o644, size }
    }

    /// Returns the file identifier.
    pub fn identifier(&self) -> (r: &[u8])
        ensures
            r@ == self@.identifier,
    {
        self.identifier.as_slice()
    }

    /// Sets the modification timestamp, in seconds; checked by `validate`.
    pub fn set_mtime(&mut self, mtime: u64)
        ensures
            final(self)@ == (HeaderV { mtime, ..old(self)@ }),
    {
        self.mtime = mtime;
    }

    /// Sets the user id; checked by `validate`.
    pub fn set_uid(&mut self, uid: u32)
        ensures
            final(self)@ == (HeaderV { uid, ..old(self)@ }),
    {
        self.uid = uid;
    }

    /// Sets the group id; checked by `validate`.
    pub fn set_gid(&mut self, gid: u32)
        ensures
            final(self)@ == (HeaderV { gid, ..old(self)@ }),
    {
        self.gid = gid;
    }

    /// Sets the mode bits for this file; checked by `validate`, not here.
    pub fn set_mode(&mut self, mode: u32)
        ensures
            final(self)@ == (HeaderV { mode, ..old(self)@ }),
    {
        self.mode = mode;
    }

    /// Returns the length of the file, in bytes.
    pub fn size(&self) -> (r: u64)
        ensures
            r == self@.size,
    {
        self.size
    }

    /// Checks each numeric field against its printed column width, in the
    /// order mtime, uid, gid, mode, and reports the first overflow.
    pub fn validate(&self) -> (r: Result<(), Error>)
        ensures
            r == spec_validate(self@),
            r is Ok <==> self@.valid(),
    {
        if num_digits(self.mtime, 10) > MTIME_WIDTH {
            Err(Error::FieldOverflow(Field::Mtime, self.mtime))
        } else if num_digits(self.uid as u64, 10) > UID_WIDTH {
            Err(Error::FieldOverflow(Field::Uid, self.uid as u64))
        } else if num_digits(self.gid as u64, 10) > GID_WIDTH {
            Err(Error::FieldOverflow(Field::Gid, self.gid as u64))
        } else if num_digits(self.mode as u64, 8) > MODE_WIDTH {
            Err(Error::FieldOverflow(Field::Mode, self.mode as u64))
        } else {
            Ok(())
        }
    }

    /// Appends this header's 60-byte record to `out`; `name` is the on-wire
    /// name field, already resolved to its inline or `/<offset>` form.
    pub fn push_record(&self, name: &Vec<u8>, out: &mut Vec<u8>)
        requires
            name@.len() <= NAME_WIDTH,
            self@.valid(),
            spec_num_digits(self@.size as nat, 10) <= SIZE_WIDTH,
        ensures
            final(out)@ == old(out)@ + spec_record(name@, self@),
    {
        let ghost base = out@;
        proof {
            lemma_digits_len(self@.mtime as nat, 10);
            lemma_digits_len(self@.uid as nat, 10);
            lemma_digits_len(self@.gid as nat, 10);
            lemma_digits_len(self@.mode as nat, 8);
            lemma_digits_len(self@.size as nat, 10);
        }
        push_padded_bytes(name, 16, out);
        push_padded_digits(self.mtime, 10, MTIME_WIDTH, out);
        push_padded_digits(self.uid as u64, 10, UID_WIDTH, out);
        push_padded_digits(self.gid as u64, 10, GID_WIDTH, out);
        push_padded_digits(self.mode as u64, 8, MODE_WIDTH, out);
        push_padded_digits(self.size, 10, SIZE_WIDTH, out);
        out.push(96);
        out.push(10);
        assert(out@ =~= base + spec_record(name@, self@));
    }
}

} // verus!
