//! Reading a source repository's stored files: a little-endian byte reader,
//! hexadecimal hash names, and the object file format.
use vstd::prelude::*;
use vstd::string::StringSliceAdditionalSpecFns;

verus! {

/// The ways reading a repository can fail.
#[derive(Clone, Copy, Debug, PartialEq, Eq, Structural)]
pub enum Error {
    InvalidPath,
    InvalidDir { has_leaves_file: bool, has_patches_dir: bool, has_objects_dir: bool, has_definitions_dir: bool },
    InvalidObjectFileName,
    InvalidObjectFile,
    /// A file whose contents end early or hold a value that is out of range.
    CorruptFile,
    /// A file whose contents are not a complete zlib stream.
    Compression,
}

/// The unsigned value of `s` read as a little-endian number.
pub open spec fn le_value(s: Seq<u8>) -> nat
    decreases s.len(),
{
    if s.len() == 0 {
        0
    } else {
        s[0] as nat + 256 * le_value(s.subrange(1, s.len() as int))
    }
}

pub open spec fn pow256(n: nat) -> nat
    decreases n,
{
    if n == 0 { 1 } else { 256 * pow256((n - 1) as nat) }
}

proof fn lemma_le_value_bound(s: Seq<u8>)
    ensures
        le_value(s) < pow256(s.len()),
    decreases s.len(),
{
    if s.len() > 0 {
        let rest = s.subrange(1, s.len() as int);
        lemma_le_value_bound(rest);
        let a = s[0] as nat;
        let b = le_value(rest);
        let p = pow256(rest.len());
        assert(a + 256 * b < 256 * p) by (nonlinear_arith)
            requires a < 256, b < p;
    }
}

/// The little-endian value of at most eight bytes.
fn le_from_bytes(b: &[u8]) -> (r: u64)
    requires
        b@.len() <= 8,
    ensures
        r == le_value(b@),
{
    let n = b.len();
    let mut acc: u64 = 0;
    let mut i: usize = n;
    while i > 0
        invariant
            i <= n,
            n == b@.len(),
            n <= 8,
            acc == le_value(b@.subrange(i as int, n as int)),
        decreases i,
    {
        let ghost tail = b@.subrange(i as int, n as int);
        let ghost next = b@.subrange(i - 1, n as int);
        assert(next.subrange(1, next.len() as int) =~= tail);
        proof {
            lemma_le_value_bound(next);
            assert(pow256(next.len()) <= pow256(8)) by {
                lemma_pow256_mono(next.len(), 8);
            }
            lemma_pow256_eight();
        }
        acc = acc * 256 + b[i - 1] as u64;
        i -= 1;
    }
    assert(b@.subrange(0, n as int) =~= b@);
    acc
}

proof fn lemma_pow256_eight()
    ensures
        pow256(8) == 0x1_0000_0000_0000_0000nat,
{
    assert(pow256(0) == 1);
    assert(pow256(1) == 0x100);
    assert(pow256(2) == 0x1_0000);
    assert(pow256(3) == 0x100_0000);
    assert(pow256(4) == 0x1_0000_0000nat);
    assert(pow256(5) == 0x100_0000_0000nat);
    assert(pow256(6) == 0x1_0000_0000_0000nat);
    assert(pow256(7) == 0x100_0000_0000_0000nat);
}

proof fn lemma_pow256_mono(a: nat, b: nat)
    requires
        a <= b,
    ensures
        pow256(a) <= pow256(b),
    decreases b,
{
    if a < b {
        lemma_pow256_mono(a, (b - 1) as nat);
    }
}

/// Relies on `String::from_utf8`: the bytes become a string exactly when
/// they are valid UTF-8, and the string encodes back to them.
#[verifier::external_body]
fn string_from_utf8(bytes: Vec<u8>) -> (r: Option<String>)
    ensures
        r is Some <==> vstd::utf8::valid_utf8(bytes@),
        r matches Some(s) ==> vstd::utf8::encode_utf8(s@) == bytes@,
{
    match String::from_utf8(bytes) {
        Ok(s) => Some(s),
        Err(_) => None,
    }
}

/// A cursor over the bytes of a decoded repository file.
pub struct ReadState<'a> {
    pub bytes: &'a [u8],
    pub cursor: usize,
}

impl<'a> ReadState<'a> {
    /// Whether `n` more bytes can be read.
    pub open spec fn can_read(&self, n: int) -> bool {
        self.cursor + n <= self.bytes@.len()
    }

    /// The `n` bytes after the cursor.
    pub open spec fn ahead(&self, n: int) -> Seq<u8> {
        self.bytes@.subrange(self.cursor as int, self.cursor + n)
    }

    /// The length that the two bytes after the cursor give a stored string.
    pub open spec fn string_len(&self) -> int {
        le_value(self.ahead(2)) as int
    }

    /// Whether `after` is this state moved `n` bytes on.
    pub open spec fn advanced(&self, after: ReadState<'a>, n: int) -> bool {
        &&& after.bytes@ == self.bytes@
        &&& after.cursor == self.cursor + n
    }

    pub fn new(bytes: &'a [u8]) -> (r: ReadState<'a>)
        ensures
            r.bytes@ == bytes@,
            r.cursor == 0,
    {
        ReadState { bytes, cursor: 0 }
    }

    fn ensure_can_read(&self, len: usize) -> (r: Result<(), Error>)
        ensures
            r is Ok <==> self.can_read(len as int),
            r matches Err(e) ==> e == Error::CorruptFile,
    {
        if len > self.bytes.len() || self.cursor > self.bytes.len() - len {
            Err(Error::CorruptFile)
        } else {
            Ok(())
        }
    }

    /// Fills `buf` with the next bytes.
    pub fn copy_bytes(&mut self, buf: &mut [u8]) -> (r: Result<(), Error>)
        ensures
            r is Ok <==> old(self).can_read(old(buf)@.len() as int),
            r matches Ok(_) ==> {
                &&& old(self).advanced(*final(self), old(buf)@.len() as int)
                &&& final(buf)@ == old(self).ahead(old(buf)@.len() as int)
            },
            r matches Err(e) ==> e == Error::CorruptFile && *final(self) == *old(self) && final(buf)@ == old(buf)@,
    {
        let len = buf.len();
        self.ensure_can_read(len)?;
        let total = self.bytes.len();
        let start = self.cursor;
        let mut i: usize = 0;
        while i < len
            invariant
                i <= len,
                len == buf@.len(),
                len == old(buf)@.len(),
                start == self.cursor,
                start + len <= self.bytes@.len(),
                self.bytes@.len() == total,
                forall|j: int| 0 <= j < i ==> buf@[j] == self.bytes@[start + j],
            decreases len - i,
        {
            buf[i] = self.bytes[start + i];
            i += 1;
        }
        self.cursor = start + len;
        assert(buf@ =~= old(self).ahead(len as int));
        Ok(())
    }

    /// The next `size` bytes.
    pub fn read_bytes(&mut self, size: usize) -> (r: Result<Vec<u8>, Error>)
        ensures
            r is Ok <==> old(self).can_read(size as int),
            r matches Ok(v) ==> old(self).advanced(*final(self), size as int) && v@ == old(self).ahead(size as int),
            r matches Err(e) ==> e == Error::CorruptFile && *final(self) == *old(self),
    {
        self.ensure_can_read(size)?;
        let total = self.bytes.len();
        let start = self.cursor;
        let mut buf: Vec<u8> = Vec::with_capacity(size);
        let mut i: usize = start;
        while i < start + size
            invariant
                start <= i <= start + size,
                start + size <= self.bytes@.len(),
                self.bytes@.len() == total,
                start == self.cursor,
                buf@ == self.bytes@.subrange(start as int, i as int),
            decreases start + size - i,
        {
            buf.push(self.bytes[i]);
            assert(buf@ =~= self.bytes@.subrange(start as int, i + 1));
            i += 1;
        }
        self.cursor = start + size;
        Ok(buf)
    }

    pub fn read_u8(&mut self) -> (r: Result<u8, Error>)
        ensures
            r is Ok <==> old(self).can_read(1),
            r matches Ok(v) ==> old(self).advanced(*final(self), 1) && v == old(self).bytes@[old(self).cursor as int],
            r matches Err(e) ==> e == Error::CorruptFile && *final(self) == *old(self),
    {
        self.ensure_can_read(1)?;
        let v = self.bytes[self.cursor];
        self.cursor += 1;
        Ok(v)
    }

    /// The next two bytes as a little-endian number.
    pub fn read_u16(&mut self) -> (r: Result<u16, Error>)
        ensures
            r is Ok <==> old(self).can_read(2),
            r matches Ok(v) ==> old(self).advanced(*final(self), 2) && v == le_value(old(self).ahead(2)),
            r matches Err(e) ==> e == Error::CorruptFile && *final(self) == *old(self),
    {
        let bytes = self.read_bytes(2)?;
        proof {
            lemma_le_value_bound(bytes@);
            assert(pow256(2) == 0x1_0000) by {
                assert(pow256(0) == 1);
                assert(pow256(1) == 256);
            }
        }
        Ok(le_from_bytes(bytes.as_slice()) as u16)
    }

    /// The next four bytes as a little-endian number.
    pub fn read_u32(&mut self) -> (r: Result<u32, Error>)
        ensures
            r is Ok <==> old(self).can_read(4),
            r matches Ok(v) ==> old(self).advanced(*final(self), 4) && v == le_value(old(self).ahead(4)),
            r matches Err(e) ==> e == Error::CorruptFile && *final(self) == *old(self),
    {
        let bytes = self.read_bytes(4)?;
        proof {
            lemma_le_value_bound(bytes@);
            assert(pow256(4) == 0x1_0000_0000nat) by {
                assert(pow256(0) == 1);
                assert(pow256(1) == 256);
                assert(pow256(2) == 0x1_0000);
                assert(pow256(3) == 0x100_0000);
            }
        }
        Ok(le_from_bytes(bytes.as_slice()) as u32)
    }

    /// The next eight bytes as a little-endian number.
    pub fn read_u64(&mut self) -> (r: Result<u64, Error>)
        ensures
            r is Ok <==> old(self).can_read(8),
            r matches Ok(v) ==> old(self).advanced(*final(self), 8) && v == le_value(old(self).ahead(8)),
            r matches Err(e) ==> e == Error::CorruptFile && *final(self) == *old(self),
    {
        let bytes = self.read_bytes(8)?;
        Ok(le_from_bytes(bytes.as_slice()))
    }

    /// A string stored as its UTF-8 length (two bytes, little-endian)
    /// followed by its bytes.
    pub fn read_string(&mut self) -> (r: Result<String, Error>)
        ensures
            final(self).bytes@ == old(self).bytes@,
            r is Ok <==> {
                &&& old(self).can_read(2)
                &&& old(self).can_read(2 + old(self).string_len())
                &&& vstd::utf8::valid_utf8(old(self).bytes@.subrange(old(self).cursor + 2, old(self).cursor + 2 + old(self).string_len()))
            },
            r matches Ok(s) ==> {
                &&& old(self).advanced(*final(self), 2 + old(self).string_len())
                &&& vstd::utf8::encode_utf8(s@) == old(self).bytes@.subrange(
                    old(self).cursor + 2,
                    old(self).cursor + 2 + old(self).string_len(),
                )
            },
            r matches Err(e) ==> e == Error::CorruptFile,
    {
        let size = self.read_u16()?;
        let bytes = self.read_bytes(size as usize)?;
        match string_from_utf8(bytes) {
            Some(s) => Ok(s),
            None => Err(Error::CorruptFile),
        }
    }

    /// Whether every byte has been read.
    pub fn at_end(&self) -> (r: bool)
        ensures
            r == (self.cursor >= self.bytes@.len()),
    {
        self.cursor >= self.bytes.len()
    }
}

/// The lower-case hexadecimal digit of a value below 16.
pub open spec fn hex_char(n: u8) -> char {
    if n < 10 {
        ((n + 48) as u8) as char
    } else {
        ((n + 87) as u8) as char
    }
}

/// The hexadecimal text of `bytes`: two lower-case digits per byte, the
/// high half first.
pub open spec fn hex_text(bytes: Seq<u8>) -> Seq<char> {
    Seq::new(
        2 * bytes.len(),
        |k: int|
            if k % 2 == 0 {
                hex_char(bytes[k / 2] / 16)
            } else {
                hex_char(bytes[k / 2] % 16)
            },
    )
}

fn hex_digit(n: u8) -> (c: char)
    requires
        n < 16,
    ensures
        c == hex_char(n),
{
    if n < 10 {
        (n + 48) as char
    } else {
        (n + 87) as char
    }
}

/// Relies on `String::push`: appends one character.
#[verifier::external_body]
fn push_char(s: &mut String, c: char)
    ensures
        final(s)@ == old(s)@.push(c),
{
    s.push(c);
}

/// The name of a hash: its 32 bytes as 64 lower-case hexadecimal digits.
pub fn hash_bytes_to_hex(bytes: &[u8; 32]) -> (r: String)
    ensures
        r@ == hex_text(bytes@),
{
    let mut hex = String::new();
    let mut i: usize = 0;
    while i < 32
        invariant
            i <= 32,
            bytes@.len() == 32,
            hex@ =~= hex_text(bytes@.subrange(0, i as int)),
        decreases 32 - i,
    {
        let byte = bytes[i];
        push_char(&mut hex, hex_digit(byte / 16));
        push_char(&mut hex, hex_digit(byte % 16));
        assert(hex@ =~= hex_text(bytes@.subrange(0, i + 1)));
        i += 1;
    }
    assert(bytes@.subrange(0, 32) =~= bytes@);
    hex
}

/// The value of one digit of a hash name: `0`-`9` count from 0, and letters
/// count from 10 in either case.
pub open spec fn digit_value(c: u8) -> Option<u8> {
    if 48 <= c <= 57 {
        Some((c - 48) as u8)
    } else if 65 <= c <= 90 {
        Some((c - 55) as u8)
    } else if 97 <= c <= 122 {
        Some((c - 87) as u8)
    } else {
        None
    }
}

/// The byte that two digits of a hash name give: the first shifted four
/// bits up, or-ed with the second.
pub open spec fn digit_pair(most: u8, least: u8) -> u8 {
    (most << 4u8) | least
}

/// The 32 bytes that the first 64 digits of a hash name stand for.
pub open spec fn hash_name_bytes(s: Seq<u8>) -> Seq<u8> {
    Seq::new(32, |i: int| digit_pair(digit_value(s[2 * i])->0, digit_value(s[2 * i + 1])->0))
}

/// Whether the first 64 bytes of `s` are all digits of a hash name.
pub open spec fn is_hash_name(s: Seq<u8>) -> bool {
    &&& s.len() >= 64
    &&& forall|k: int| 0 <= k < 64 ==> (#[trigger] digit_value(s[k])) is Some
}

fn match_hex_to_byte(c: u8) -> (r: Option<u8>)
    ensures
        r == digit_value(c),
{
    if 48 <= c && c <= 57 {
        Some(c - 48)
    } else if 65 <= c && c <= 90 {
        Some(c - 55)
    } else if 97 <= c && c <= 122 {
        Some(c - 87)
    } else {
        None
    }
}

/// The 32 bytes that a hash name of 64 digits stands for, read from its
/// first 64 bytes; `None` where it is shorter or holds a non-digit.
pub fn hash_hex_to_bytes(hex: &str) -> (r: Option<[u8; 32]>)
    ensures
        r is Some <==> is_hash_name(hex.spec_bytes()),
        r matches Some(b) ==> b@ == hash_name_bytes(hex.spec_bytes()),
{
    let hex_bytes = hex.as_bytes();
    if hex_bytes.len() < 64 {
        return None;
    }
    let mut bytes: [u8; 32] = [0; 32];
    let mut i: usize = 0;
    while i < 32
        invariant
            i <= 32,
            hex_bytes@ == hex.spec_bytes(),
            hex_bytes@.len() >= 64,
            bytes@.len() == 32,
            forall|k: int| 0 <= k < 2 * i ==> (#[trigger] digit_value(hex_bytes@[k])) is Some,
            forall|j: int|
                0 <= j < i ==> #[trigger] bytes@[j] == digit_pair(
                    digit_value(hex_bytes@[2 * j])->0,
                    digit_value(hex_bytes@[2 * j + 1])->0,
                ),
        decreases 32 - i,
    {
        let hex_i = i * 2;
        let most = match match_hex_to_byte(hex_bytes[hex_i]) {
            Some(v) => v,
            None => {
                return None;
            },
        };
        let least = match match_hex_to_byte(hex_bytes[hex_i + 1]) {
            Some(v) => v,
            None => {
                return None;
            },
        };
        bytes[i] = (most << 4u8) | least;
        i += 1;
    }
    assert(bytes@ =~= hash_name_bytes(hex.spec_bytes()));
    Some(bytes)
}

/// An object stored in a repository.
#[derive(Clone, Debug, PartialEq, Eq)]
pub struct StoredObject {
    /// The hash of the patch in which it was committed.
    pub hash: [u8; 32],
    /// Its index when it was committed.
    pub idx: u64,
    /// The hash of the definition that holds its type.
    pub def_hash: [u8; 32],
    /// The index of its type in that definition.
    pub def_idx: u16,
    /// Its data.
    pub data: Vec<u8>,
}

/// An object as plain values: hash, index, definition hash, type index and
/// data.
pub open spec fn object_view(o: StoredObject) -> (Seq<u8>, u64, Seq<u8>, u16, Seq<u8>) {
    (o.hash@, o.idx, o.def_hash@, o.def_idx, o.data@)
}

/// The object entry at `pos` of a decoded object file: its type index (two
/// bytes), its index (eight bytes), the length of its data (eight bytes) and
/// the data, with the position after it.
pub open spec fn object_at(b: Seq<u8>, pos: int) -> Option<(u16, u64, Seq<u8>, int)> {
    if pos + 18 > b.len() {
        None
    } else {
        let size = le_value(b.subrange(pos + 10, pos + 18)) as int;
        if pos + 18 + size > b.len() {
            None
        } else {
            Some(
                (
                    le_value(b.subrange(pos, pos + 2)) as u16,
                    le_value(b.subrange(pos + 2, pos + 10)) as u64,
                    b.subrange(pos + 18, pos + 18 + size),
                    pos + 18 + size,
                ),
            )
        }
    }
}

/// The `n` object entries from `pos` on, with the position after them.
pub open spec fn objects_at(b: Seq<u8>, pos: int, n: nat) -> Option<(Seq<(u16, u64, Seq<u8>)>, int)>
    decreases n,
{
    if n == 0 {
        Some((Seq::empty(), pos))
    } else {
        match object_at(b, pos) {
            None => None,
            Some((def_idx, idx, data, next)) => match objects_at(b, next, (n - 1) as nat) {
                None => None,
                Some((rest, end)) => Some((seq![(def_idx, idx, data)] + rest, end)),
            },
        }
    }
}

/// The groups of an object file from `pos` to its end: each is a definition
/// hash (32 bytes), an object count (eight bytes) and that many entries.
pub open spec fn groups_at(b: Seq<u8>, pos: int) -> Option<Seq<(Seq<u8>, Seq<(u16, u64, Seq<u8>)>)>>
    decreases b.len() - pos,
{
    if pos >= b.len() {
        Some(Seq::empty())
    } else if pos + 40 > b.len() {
        None
    } else {
        match objects_at(b, pos + 40, le_value(b.subrange(pos + 32, pos + 40))) {
            None => None,
            Some((objs, end)) => if end <= pos || end > b.len() {
                None
            } else {
                match groups_at(b, end) {
                    None => None,
                    Some(rest) => Some(seq![(b.subrange(pos, pos + 32), objs)] + rest),
                }
            },
        }
    }
}

/// The objects of a group, committed in the patch of hash `hash`.
pub open spec fn group_objects(hash: Seq<u8>, g: (Seq<u8>, Seq<(u16, u64, Seq<u8>)>)) -> Seq<(Seq<u8>, u64, Seq<u8>, u16, Seq<u8>)> {
    g.1.map_values(|o: (u16, u64, Seq<u8>)| (hash, o.1, g.0, o.0, o.2))
}

/// The objects of the first `n` groups, in order.
pub open spec fn all_objects(hash: Seq<u8>, gs: Seq<(Seq<u8>, Seq<(u16, u64, Seq<u8>)>)>, n: int) -> Seq<(Seq<u8>, u64, Seq<u8>, u16, Seq<u8>)>
    decreases n,
{
    if n <= 0 {
        Seq::empty()
    } else {
        all_objects(hash, gs, n - 1) + group_objects(hash, gs[n - 1])
    }
}

fn hash_of(v: &Vec<u8>) -> (r: [u8; 32])
    requires
        v@.len() == 32,
    ensures
        r@ == v@,
{
    let mut h: [u8; 32] = [0; 32];
    let mut i: usize = 0;
    while i < 32
        invariant
            i <= 32,
            v@.len() == 32,
            h@.len() == 32,
            forall|j: int| 0 <= j < i ==> h@[j] == v@[j],
        decreases 32 - i,
    {
        h[i] = v[i];
        i += 1;
    }
    assert(h@ =~= v@);
    h
}

/// Reads the objects of a decoded object file, committed in the patch of
/// hash `hash`, onto the end of `objects`, and returns the definition hash
/// of each group in order.
pub fn read_objects(hash: [u8; 32], bytes: &[u8], objects: &mut Vec<StoredObject>) -> (r: Result<Vec<[u8; 32]>, Error>)
    ensures
        r is Ok <==> groups_at(bytes@, 0) is Some,
        r matches Ok(hashes) ==> {
            let gs = groups_at(bytes@, 0)->0;
            &&& hashes@.map_values(|h: [u8; 32]| h@) == gs.map_values(|g: (Seq<u8>, Seq<(u16, u64, Seq<u8>)>)| g.0)
            &&& final(objects)@.map_values(|o: StoredObject| object_view(o)) == old(objects)@.map_values(
                |o: StoredObject| object_view(o),
            ) + all_objects(hash@, gs, gs.len() as int)
        },
        r matches Err(e) ==> e == Error::CorruptFile,
{
    let mut state = ReadState::new(bytes);
    let mut def_hashes: Vec<[u8; 32]> = Vec::new();
    let ghost b = bytes@;
    let ghost mut done: Seq<(Seq<u8>, Seq<(u16, u64, Seq<u8>)>)> = Seq::empty();
    while !state.at_end()
        invariant
            state.bytes@ == b,
            b == bytes@,
            state.cursor <= b.len(),
            groups_at(b, 0) == match groups_at(b, state.cursor as int) {
                Some(rest) => Some(done + rest),
                None => None::<Seq<(Seq<u8>, Seq<(u16, u64, Seq<u8>)>)>>,
            },
            def_hashes@.map_values(|h: [u8; 32]| h@) == done.map_values(|g: (Seq<u8>, Seq<(u16, u64, Seq<u8>)>)| g.0),
            objects@.map_values(|o: StoredObject| object_view(o)) == old(objects)@.map_values(|o: StoredObject| object_view(o))
                + all_objects(hash@, done, done.len() as int),
        decreases b.len() - state.cursor,
    {
        let ghost pos = state.cursor as int;
        let total = bytes.len();
        let hash_bytes = match state.read_bytes(32) {
            Ok(h) => h,
            Err(e) => {
                assert(groups_at(b, pos) is None);
                return Err(e);
            },
        };
        let def_hash = hash_of(&hash_bytes);
        let num_objects = match state.read_u64() {
            Ok(n) => n,
            Err(e) => {
                assert(groups_at(b, pos) is None);
                return Err(e);
            },
        };
        assert(def_hash@ == b.subrange(pos, pos + 32));
        assert(num_objects == le_value(b.subrange(pos + 32, pos + 40)));
        let ghost start = state.cursor as int;
        let ghost mut recs: Seq<(u16, u64, Seq<u8>)> = Seq::empty();
        let ghost base = objects@.map_values(|o: StoredObject| object_view(o));
        let mut k: u64 = 0;
        while k < num_objects
            invariant
                state.bytes@ == b,
                b == bytes@,
                b.len() == total,
                state.cursor <= b.len(),
                pos < b.len(),
                pos + 40 <= b.len(),
                num_objects == le_value(b.subrange(pos + 32, pos + 40)),
                groups_at(b, 0) == match groups_at(b, pos) {
                    Some(rest) => Some(done + rest),
                    None => None::<Seq<(Seq<u8>, Seq<(u16, u64, Seq<u8>)>)>>,
                },
                start == pos + 40,
                state.cursor >= start,
                k <= num_objects,
                recs.len() == k,
                def_hash@ == b.subrange(pos, pos + 32),
                objects_at(b, start, num_objects as nat) == match objects_at(b, state.cursor as int, (num_objects - k) as nat) {
                    Some((rest, end)) => Some((recs + rest, end)),
                    None => None::<(Seq<(u16, u64, Seq<u8>)>, int)>,
                },
                objects@.map_values(|o: StoredObject| object_view(o)) == base + group_objects(hash@, (def_hash@, recs)),
            decreases num_objects - k,
        {
            let ghost at = state.cursor as int;
            let ghost fails = object_at(b, at) is None ==> objects_at(b, start, num_objects as nat) is None && groups_at(b, pos) is None;
            assert(fails) by {
                if object_at(b, at) is None {
                    assert(objects_at(b, at, (num_objects - k) as nat) is None);
                }
            }
            let def_idx = match state.read_u16() {
                Ok(v) => v,
                Err(e) => {
                    return Err(e);
                },
            };
            let idx = match state.read_u64() {
                Ok(v) => v,
                Err(e) => {
                    return Err(e);
                },
            };
            let data_size = match state.read_u64() {
                Ok(v) => v,
                Err(e) => {
                    return Err(e);
                },
            };
            if data_size > usize::MAX as u64 {
                assert(object_at(b, at) is None);
                return Err(Error::CorruptFile);
            }
            let data = match state.read_bytes(data_size as usize) {
                Ok(v) => v,
                Err(e) => {
                    assert(object_at(b, at) is None);
                    return Err(e);
                },
            };
            assert(object_at(b, at) == Some((def_idx, idx, data@, state.cursor as int)));
            let ghost before = objects@;
            objects.push(StoredObject { hash, idx, def_hash, def_idx, data });
            proof {
                let rec = (def_idx, idx, data@);
                if let Some((rest, _)) = objects_at(b, state.cursor as int, (num_objects - k - 1) as nat) {
                    assert(recs.push(rec) + rest =~= recs + (seq![rec] + rest));
                }
                assert(group_objects(hash@, (def_hash@, recs.push(rec))) =~= group_objects(hash@, (def_hash@, recs)).push(
                    (hash@, idx, def_hash@, def_idx, data@),
                ));
                assert(objects@.map_values(|o: StoredObject| object_view(o)) =~= before.map_values(|o: StoredObject| object_view(o)).push(
                    (hash@, idx, def_hash@, def_idx, data@),
                ));
                recs = recs.push(rec);
            }
            k += 1;
        }
        let ghost end = state.cursor as int;
        assert(objects_at(b, start, num_objects as nat) == Some((recs, end)));
        let ghost dh_before = def_hashes@;
        def_hashes.push(def_hash);
        assert(def_hashes@.map_values(|h: [u8; 32]| h@) =~= dh_before.map_values(|h: [u8; 32]| h@).push(def_hash@));
        proof {
            let g = (def_hash@, recs);
            assert(done.push(g).map_values(|g: (Seq<u8>, Seq<(u16, u64, Seq<u8>)>)| g.0) =~= done.map_values(
                |g: (Seq<u8>, Seq<(u16, u64, Seq<u8>)>)| g.0,
            ).push(def_hash@));
            assert(groups_at(b, pos) == match groups_at(b, end) {
                Some(rest) => Some(seq![g] + rest),
                None => None::<Seq<(Seq<u8>, Seq<(u16, u64, Seq<u8>)>)>>,
            });
            if let Some(rest) = groups_at(b, end) {
                assert(done.push(g) + rest =~= done + (seq![g] + rest));
            }
            assert(all_objects(hash@, done.push(g), done.len() + 1 as int) == all_objects(hash@, done, done.len() as int) + group_objects(
                hash@,
                g,
            )) by {
                lemma_all_objects_prefix(hash@, done, g, done.len() as int);
            }
            done = done.push(g);
        }
        assert(def_hashes@.map_values(|h: [u8; 32]| h@) =~= done.map_values(|g: (Seq<u8>, Seq<(u16, u64, Seq<u8>)>)| g.0));
        assert(objects@.map_values(|o: StoredObject| object_view(o)) =~= old(objects)@.map_values(|o: StoredObject| object_view(o))
            + all_objects(hash@, done, done.len() as int));
    }
    assert(done + Seq::empty() =~= done);
    Ok(def_hashes)
}

proof fn lemma_all_objects_prefix(
    hash: Seq<u8>,
    gs: Seq<(Seq<u8>, Seq<(u16, u64, Seq<u8>)>)>,
    g: (Seq<u8>, Seq<(u16, u64, Seq<u8>)>),
    n: int,
)
    requires
        0 <= n <= gs.len(),
    ensures
        all_objects(hash, gs.push(g), n) == all_objects(hash, gs, n),
    decreases n,
{
    if n > 0 {
        lemma_all_objects_prefix(hash, gs, g, n - 1);
        assert(gs.push(g)[n - 1] == gs[n - 1]);
    }
}

/// What zlib decompression makes of `data`.
pub uninterp spec fn zlib_decompressed(data: Seq<u8>) -> Seq<u8>;

/// Relies on flate2's `write::ZlibDecoder`: the zlib stream written into it
/// comes out decompressed once it is finished, and a stream that is not
/// valid zlib gives an error.
#[verifier::external_body]
fn inflate(data: &[u8]) -> (r: Option<Vec<u8>>)
    ensures
        r matches Some(v) ==> v@ == zlib_decompressed(data@),
{
    let mut decoder = flate2::write::ZlibDecoder::new(Vec::new());
    if std::io::Write::write_all(&mut decoder, data).is_err() {
        return None;
    }
    decoder.finish().ok()
}

/// Decompresses the contents of a stored repository file.
pub fn decode_file(contents: &[u8]) -> (r: Result<Vec<u8>, Error>)
    ensures
        r matches Ok(v) ==> v@ == zlib_decompressed(contents@),
        r matches Err(e) ==> e == Error::Compression,
{
    match inflate(contents) {
        Some(v) => Ok(v),
        None => Err(Error::Compression),
    }
}

/// Reads an object file, named by the hash of its patch and holding
/// `contents`, onto the end of `objects`, and returns the hashes of the
/// definitions its objects use, one per group.
pub fn read_object_file(file_name: &str, contents: &[u8], objects: &mut Vec<StoredObject>) -> (r: Result<Vec<[u8; 32]>, Error>)
    ensures
        !is_hash_name(file_name.spec_bytes()) <==> r == Err::<Vec<[u8; 32]>, Error>(Error::InvalidObjectFileName),
        r == Err::<Vec<[u8; 32]>, Error>(Error::InvalidObjectFileName) ==> final(objects)@ == old(objects)@,
        r == Err::<Vec<[u8; 32]>, Error>(Error::CorruptFile) ==> groups_at(zlib_decompressed(contents@), 0) is None,
        r is Ok ==> groups_at(zlib_decompressed(contents@), 0) is Some,
        r matches Ok(hashes) ==> {
            let gs = groups_at(zlib_decompressed(contents@), 0)->0;
            &&& hashes@.map_values(|h: [u8; 32]| h@) == gs.map_values(|g: (Seq<u8>, Seq<(u16, u64, Seq<u8>)>)| g.0)
            &&& final(objects)@.map_values(|o: StoredObject| object_view(o)) == old(objects)@.map_values(
                |o: StoredObject| object_view(o),
            ) + all_objects(hash_name_bytes(file_name.spec_bytes()), gs, gs.len() as int)
        },
{
    let hash = match hash_hex_to_bytes(file_name) {
        Some(hash) => hash,
        None => {
            return Err(Error::InvalidObjectFileName);
        },
    };
    let bytes = decode_file(contents)?;
    read_objects(hash, bytes.as_slice(), objects)
}

} // verus!
