//! The archive format: members (directories, regular files, symlinks) with
//! their metadata, the 512-byte header blocks that describe them, the
//! long-name records that carry paths beyond a header's name field, and the
//! construction of one complete tar-format byte stream.  The stream is a
//! mathematical function of the member list, which is what makes the
//! pipeline's output reproducible.

use vstd::prelude::*;

use crate::util::{bytes_range, path_ext, path_ext_spec, split_spec};

verus! {

/// What one archive member is.
#[derive(Debug, Clone, Copy, PartialEq, Eq, Structural)]
pub enum MemberKind {
    Directory,
    RegularFile,
    Symlink,
}

/// One logical entry of the archive: a path relative to the archived root,
/// its kind, its metadata, and (for regular files) its contents.
#[derive(Debug, Clone, PartialEq, Eq)]
pub struct ArchiveMember {
    /// Path relative to the archived root, with `/` separators.
    pub path: Vec<u8>,
    /// Directory, regular file, or symlink.
    pub kind: MemberKind,
    /// Permission bits.
    pub mode: u32,
    /// Owner id.
    pub uid: u32,
    /// Group id.
    pub gid: u32,
    /// Modification time, seconds since the epoch.
    pub mtime: u64,
    /// The symlink's target, empty for other kinds.
    pub link_target: Vec<u8>,
    /// The file's bytes, empty for other kinds.
    pub content: Vec<u8>,
}

/// The mathematical value of an archive member.
#[verifier::ext_equal]
pub struct MemberView {
    pub path: Seq<u8>,
    pub kind: MemberKind,
    pub mode: u32,
    pub uid: u32,
    pub gid: u32,
    pub mtime: u64,
    pub link_target: Seq<u8>,
    pub content: Seq<u8>,
}

impl View for ArchiveMember {
    type V = MemberView;

    open spec fn view(&self) -> MemberView {
        MemberView {
            path: self.path@,
            kind: self.kind,
            mode: self.mode,
            uid: self.uid,
            gid: self.gid,
            mtime: self.mtime,
            link_target: self.link_target@,
            content: self.content@,
        }
    }
}

/// No NUL byte anywhere: the header's name fields are NUL-terminated.
pub open spec fn no_nul(s: Seq<u8>) -> bool {
    forall|i: int| 0 <= i < s.len() ==> s[i] != 0
}

/// No component of the path is a parent step.
pub open spec fn no_dotdot(p: Seq<u8>) -> bool {
    forall|i: int|
        0 <= i < split_spec(p, 47).len() ==> #[trigger] split_spec(p, 47)[i] != seq![46u8, 46u8]
}

/// 8 to the `w`.
pub open spec fn pow8(w: nat) -> nat
    decreases w,
{
    if w == 0 {
        1
    } else {
        8 * pow8((w - 1) as nat)
    }
}

/// The concrete values of the powers of eight the header fields use.
pub proof fn lemma_pow8_values()
    ensures
        pow8(6) == 262144,
        pow8(7) == 2097152,
        pow8(11) == 8589934592,
{
    reveal_with_fuel(pow8, 12);
}

impl MemberView {
    /// A member the archive can hold: a relative, NUL-free path without
    /// parent steps (a path beyond one name field travels in a long-name
    /// record); metadata within its octal fields; contents only on regular
    /// files and a target only on symlinks.
    pub open spec fn wf(self) -> bool {
        &&& 1 <= self.path.len()
        &&& self.path.len() + 1 < pow8(11)
        &&& no_nul(self.path)
        &&& self.path[0] != 47
        &&& no_dotdot(self.path)
        &&& self.mode < pow8(7)
        &&& self.uid < pow8(7)
        &&& self.gid < pow8(7)
        &&& self.mtime < pow8(11)
        &&& match self.kind {
            MemberKind::Directory => self.content.len() == 0 && self.link_target.len() == 0,
            MemberKind::RegularFile => self.content.len() < pow8(11) && self.link_target.len()
                == 0,
            MemberKind::Symlink => {
                &&& self.content.len() == 0
                &&& 1 <= self.link_target.len() <= 100
                &&& no_nul(self.link_target)
            },
        }
    }

    /// The byte count recorded in the member's size field.
    pub open spec fn size_of(self) -> nat {
        if self.kind == MemberKind::RegularFile {
            self.content.len()
        } else {
            0
        }
    }
}

/// `n` zero bytes.
pub open spec fn zero_bytes(n: nat) -> Seq<u8> {
    Seq::new(n, |i: int| 0u8)
}

/// The ASCII digit of an octal value below 8.
pub open spec fn oct_digit(d: nat) -> u8 {
    (48 + d) as u8
}

/// `n` rendered as exactly `w` octal digits, most significant first; high
/// bits beyond `w` digits are dropped.
pub open spec fn octal(n: nat, w: nat) -> Seq<u8>
    decreases w,
{
    if w == 0 {
        Seq::<u8>::empty()
    } else {
        octal(n / 8, (w - 1) as nat).push(oct_digit(n % 8))
    }
}

/// A numeric header field of total width `w`: `w - 1` octal digits and a
/// terminating NUL.
pub open spec fn num_field(n: nat, w: nat) -> Seq<u8>
    recommends
        w >= 1,
{
    octal(n, (w - 1) as nat) + seq![0u8]
}

/// A name header field of width `w`: the bytes, NUL-padded.
pub open spec fn name_field(p: Seq<u8>, w: nat) -> Seq<u8>
    recommends
        p.len() <= w,
{
    p + zero_bytes((w - p.len()) as nat)
}

/// The bytes the header's name field holds: the path itself when it fits,
/// its leading bytes otherwise — the full path then travels in a long-name
/// record ahead of the header.
pub open spec fn header_name(p: Seq<u8>) -> Seq<u8> {
    if p.len() <= 100 {
        p
    } else {
        p.take(100)
    }
}

/// The header's type flag for each member kind.
pub open spec fn type_flag(k: MemberKind) -> u8 {
    match k {
        MemberKind::RegularFile => 48,
        MemberKind::Symlink => 50,
        MemberKind::Directory => 53,
    }
}

/// The magic and version fields that mark the header format.
pub open spec fn magic_bytes() -> Seq<u8> {
    seq![117u8, 115u8, 116u8, 97u8, 114u8, 32u8, 32u8, 0u8]
}

/// The header bytes before the checksum field: name, mode, uid, gid, size,
/// and mtime.
pub open spec fn header_front(m: MemberView) -> Seq<u8> {
    name_field(header_name(m.path), 100) + num_field(m.mode as nat, 8) + num_field(m.uid as nat, 8)
        + num_field(
        m.gid as nat,
        8,
    ) + num_field(m.size_of(), 12) + num_field(m.mtime as nat, 12)
}

/// The header bytes after the checksum field: type flag, link name, magic,
/// and the zeroed remainder of the block.
pub open spec fn header_back(m: MemberView) -> Seq<u8> {
    seq![type_flag(m.kind)] + name_field(m.link_target, 100) + magic_bytes() + zero_bytes(247)
}

/// The sum of a sequence's byte values.
pub open spec fn byte_sum(s: Seq<u8>) -> nat
    decreases s.len(),
{
    if s.len() == 0 {
        0
    } else {
        byte_sum(s.drop_last()) + s.last() as nat
    }
}

/// The header checksum: every header byte summed, with the checksum field
/// itself read as eight spaces.
pub open spec fn header_checksum(m: MemberView) -> nat {
    byte_sum(header_front(m)) + 256 + byte_sum(header_back(m))
}

/// The checksum field: six octal digits, a NUL, and a space.
pub open spec fn checksum_field(n: nat) -> Seq<u8> {
    octal(n, 6) + seq![0u8, 32u8]
}

/// One member's complete 512-byte header.
pub open spec fn header_bytes(m: MemberView) -> Seq<u8> {
    header_front(m) + checksum_field(header_checksum(m)) + header_back(m)
}

/// How many zero bytes pad `n` content bytes to a block boundary.
pub open spec fn padding_len(n: nat) -> nat {
    ((512 - (n % 512)) % 512) as nat
}

/// The marker name of a long-name record.
pub open spec fn longlink_name() -> Seq<u8> {
    seq![46u8, 47u8, 46u8, 47u8, 64u8, 76u8, 111u8, 110u8, 103u8, 76u8, 105u8, 110u8, 107u8]
}

/// The long-name record's header bytes before the checksum field: the
/// marker name, fixed metadata, and the size of the name data.
pub open spec fn long_front(n: nat) -> Seq<u8> {
    name_field(longlink_name(), 100) + num_field(420, 8) + num_field(0, 8) + num_field(0, 8)
        + num_field(n, 12) + num_field(0, 12)
}

/// The long-name record's header bytes after the checksum field.
pub open spec fn long_back() -> Seq<u8> {
    seq![76u8] + name_field(Seq::<u8>::empty(), 100) + magic_bytes() + zero_bytes(247)
}

/// The long-name record's header checksum.
pub open spec fn long_checksum(n: nat) -> nat {
    byte_sum(long_front(n)) + 256 + byte_sum(long_back())
}

/// The long-name record's complete 512-byte header, announcing `n` bytes of
/// name data.
pub open spec fn long_header(n: nat) -> Seq<u8> {
    long_front(n) + checksum_field(long_checksum(n)) + long_back()
}

/// A long-name record: its header, then the member's full path with a
/// terminating NUL, padded to whole blocks.
pub open spec fn long_name_bytes(p: Seq<u8>) -> Seq<u8> {
    long_header(p.len() + 1) + p + seq![0u8] + zero_bytes(padding_len(p.len() + 1))
}

/// One member's header and contents: the header block, and for a regular
/// file its contents padded to whole blocks.
pub open spec fn plain_member_bytes(m: MemberView) -> Seq<u8> {
    if m.kind == MemberKind::RegularFile {
        header_bytes(m) + m.content + zero_bytes(padding_len(m.content.len()))
    } else {
        header_bytes(m)
    }
}

/// One member's bytes in the stream: a long-name record first when the path
/// exceeds the header's name field, then the member itself.
pub open spec fn member_bytes(m: MemberView) -> Seq<u8> {
    if m.path.len() > 100 {
        long_name_bytes(m.path) + plain_member_bytes(m)
    } else {
        plain_member_bytes(m)
    }
}

/// The concatenated bytes of a member list.
pub open spec fn members_bytes(ms: Seq<MemberView>) -> Seq<u8>
    decreases ms.len(),
{
    if ms.len() == 0 {
        Seq::<u8>::empty()
    } else {
        member_bytes(ms[0]) + members_bytes(ms.drop_first())
    }
}

/// A complete archive stream: every member in order, then two zero blocks
/// as the end-of-archive marker.
pub open spec fn archive_bytes(ms: Seq<MemberView>) -> Seq<u8> {
    members_bytes(ms) + zero_bytes(1024)
}

/// The element views of a member vector.
pub open spec fn member_views(ms: Seq<ArchiveMember>) -> Seq<MemberView> {
    Seq::new(ms.len(), |i: int| ms[i]@)
}

/// Appending a member at the end extends the stream at the end.
pub proof fn lemma_members_bytes_push(ms: Seq<MemberView>, m: MemberView)
    ensures
        members_bytes(ms.push(m)) == members_bytes(ms) + member_bytes(m),
    decreases ms.len(),
{
    if ms.len() == 0 {
        assert(ms.push(m).drop_first() =~= Seq::<MemberView>::empty());
        assert(ms.push(m)[0] == m);
        assert(members_bytes(ms.push(m)) == member_bytes(m) + members_bytes(
            Seq::<MemberView>::empty(),
        ));
        assert(member_bytes(m) + Seq::<u8>::empty() =~= member_bytes(m));
        assert(members_bytes(ms) + member_bytes(m) =~= member_bytes(m));
    } else {
        lemma_members_bytes_push(ms.drop_first(), m);
        assert(ms.push(m).drop_first() =~= ms.drop_first().push(m));
        assert(ms.push(m)[0] == ms[0]);
        assert(member_bytes(ms[0]) + (members_bytes(ms.drop_first()) + member_bytes(m))
            =~= (member_bytes(ms[0]) + members_bytes(ms.drop_first())) + member_bytes(m));
    }
}

/// Every octal rendering has exactly its field width.
pub proof fn lemma_octal_len(n: nat, w: nat)
    ensures
        octal(n, w).len() == w,
    decreases w,
{
    if w > 0 {
        lemma_octal_len(n / 8, (w - 1) as nat);
    }
}

/// A well-formed member's header fills exactly one block.
pub proof fn lemma_header_len(m: MemberView)
    requires
        m.wf(),
    ensures
        header_bytes(m).len() == 512,
        header_front(m).len() == 148,
        header_back(m).len() == 356,
{
    lemma_octal_len(m.mode as nat, 7);
    lemma_octal_len(m.uid as nat, 7);
    lemma_octal_len(m.gid as nat, 7);
    lemma_octal_len(m.size_of(), 11);
    lemma_octal_len(m.mtime as nat, 11);
    lemma_octal_len(header_checksum(m), 6);
}

/// A long-name record's header fills exactly one block.
pub proof fn lemma_long_header_len(n: nat)
    ensures
        long_header(n).len() == 512,
        long_front(n).len() == 148,
        long_back().len() == 356,
{
    lemma_octal_len(420, 7);
    lemma_octal_len(0, 7);
    lemma_octal_len(n, 11);
    lemma_octal_len(0, 11);
    lemma_octal_len(long_checksum(n), 6);
}

/// Appends `n` zero bytes.
fn push_zeros(out: &mut Vec<u8>, n: usize)
    ensures
        final(out)@ == old(out)@ + zero_bytes(n as nat),
{
    let mut j: usize = 0;
    proof {
        assert(out@ + zero_bytes(0nat) =~= out@);
    }
    while j < n
        invariant
            j <= n,
            out@ == old(out)@ + zero_bytes(j as nat),
        decreases n - j,
    {
        out.push(0u8);
        proof {
            assert(zero_bytes(j as nat + 1) =~= zero_bytes(j as nat).push(0u8));
            assert(old(out)@ + zero_bytes(j as nat).push(0u8) =~= (old(out)@ + zero_bytes(
                j as nat,
            )).push(0u8));
        }
        j = j + 1;
    }
}

/// Appends the bytes of `v`.
fn push_bytes(out: &mut Vec<u8>, v: &Vec<u8>)
    ensures
        final(out)@ == old(out)@ + v@,
{
    out.extend_from_slice(v.as_slice());
}

/// Appends `n` as exactly `w` octal digits, most significant first.
fn push_octal(out: &mut Vec<u8>, n: u64, w: usize)
    ensures
        final(out)@ == old(out)@ + octal(n as nat, w as nat),
    decreases w,
{
    if w == 0 {
        proof {
            assert(out@ + octal(n as nat, 0nat) =~= out@);
        }
    } else {
        push_octal(out, n / 8, w - 1);
        let d: u8 = 48 + (n % 8) as u8;
        out.push(d);
        proof {
            assert((n as nat) / 8 == (n / 8) as nat);
            assert((n as nat) % 8 == (n % 8) as nat);
            assert(d == oct_digit((n as nat) % 8));
            assert(old(out)@ + octal((n / 8) as nat, (w - 1) as nat).push(d) =~= (old(out)@ + octal(
                (n / 8) as nat,
                (w - 1) as nat,
            )).push(d));
        }
    }
}

/// Appends a numeric field: `w - 1` octal digits and a NUL.
fn push_num_field(out: &mut Vec<u8>, n: u64, w: usize)
    requires
        w >= 1,
    ensures
        final(out)@ == old(out)@ + num_field(n as nat, w as nat),
{
    push_octal(out, n, w - 1);
    out.push(0u8);
    proof {
        assert(old(out)@ + (octal(n as nat, (w - 1) as nat) + seq![0u8]) =~= (old(out)@ + octal(
            n as nat,
            (w - 1) as nat,
        )).push(0u8));
    }
}

/// Appends a name field: the bytes, NUL-padded to width `w`.
fn push_name_field(out: &mut Vec<u8>, p: &Vec<u8>, w: usize)
    requires
        p@.len() <= w,
    ensures
        final(out)@ == old(out)@ + name_field(p@, w as nat),
{
    push_bytes(out, p);
    push_zeros(out, w - p.len());
    proof {
        assert(old(out)@ + (p@ + zero_bytes((w - p@.len()) as nat)) =~= (old(out)@ + p@)
            + zero_bytes((w - p@.len()) as nat));
    }
}

/// Sums a vector's byte values; bounded by 255 per byte.
fn sum_bytes(s: &Vec<u8>) -> (r: u64)
    requires
        s@.len() <= 512,
    ensures
        r as nat == byte_sum(s@),
        r <= 255 * 512,
{
    let mut acc: u64 = 0;
    let mut i: usize = 0;
    proof {
        assert(s@.take(0int) =~= Seq::<u8>::empty());
    }
    while i < s.len()
        invariant
            i <= s@.len() <= 512,
            acc as nat == byte_sum(s@.take(i as int)),
            acc <= 255 * i,
        decreases s@.len() - i,
    {
        proof {
            assert(s@.take(i as int + 1).drop_last() =~= s@.take(i as int));
            assert(s@.take(i as int + 1).last() == s@[i as int]);
        }
        acc = acc + s[i] as u64;
        i = i + 1;
    }
    proof {
        assert(s@.take(s@.len() as int) =~= s@);
    }
    acc
}

/// Builds one member's 512-byte header.
fn build_header(m: &ArchiveMember) -> (r: Vec<u8>)
    requires
        m@.wf(),
    ensures
        r@ == header_bytes(m@),
{
    let mut front: Vec<u8> = Vec::new();
    if m.path.len() <= 100 {
        push_name_field(&mut front, &m.path, 100);
    } else {
        let truncated = bytes_range(&m.path, 0, 100);
        proof {
            assert(truncated@ =~= header_name(m@.path));
        }
        push_name_field(&mut front, &truncated, 100);
    }
    push_num_field(&mut front, m.mode as u64, 8);
    push_num_field(&mut front, m.uid as u64, 8);
    push_num_field(&mut front, m.gid as u64, 8);
    let size: u64 = match m.kind {
        MemberKind::RegularFile => m.content.len() as u64,
        _ => 0,
    };
    push_num_field(&mut front, size, 12);
    push_num_field(&mut front, m.mtime, 12);
    proof {
        assert(front@ =~= header_front(m@));
        lemma_header_len(m@);
    }
    let mut back: Vec<u8> = Vec::new();
    let flag: u8 = match m.kind {
        MemberKind::RegularFile => 48,
        MemberKind::Symlink => 50,
        MemberKind::Directory => 53,
    };
    back.push(flag);
    push_name_field(&mut back, &m.link_target, 100);
    back.push(117u8);
    back.push(115u8);
    back.push(116u8);
    back.push(97u8);
    back.push(114u8);
    back.push(32u8);
    back.push(32u8);
    back.push(0u8);
    push_zeros(&mut back, 247);
    proof {
        assert(back@ =~= header_back(m@));
    }
    let cf = sum_bytes(&front);
    let cb = sum_bytes(&back);
    let ck: u64 = cf + 256 + cb;
    proof {
        assert(ck as nat == header_checksum(m@));
    }
    let mut h = front;
    push_octal(&mut h, ck, 6);
    h.push(0u8);
    h.push(32u8);
    let mut b = back;
    h.append(&mut b);
    proof {
        assert(h@ =~= header_front(m@) + checksum_field(header_checksum(m@)) + header_back(m@));
    }
    h
}

/// Builds a long-name record's 512-byte header, announcing `n` bytes of
/// name data.
fn build_long_header(n: u64) -> (r: Vec<u8>)
    ensures
        r@ == long_header(n as nat),
{
    let mut front: Vec<u8> = Vec::new();
    let mut marker: Vec<u8> = Vec::new();
    marker.push(46u8);
    marker.push(47u8);
    marker.push(46u8);
    marker.push(47u8);
    marker.push(64u8);
    marker.push(76u8);
    marker.push(111u8);
    marker.push(110u8);
    marker.push(103u8);
    marker.push(76u8);
    marker.push(105u8);
    marker.push(110u8);
    marker.push(107u8);
    proof {
        assert(marker@ =~= longlink_name());
    }
    push_name_field(&mut front, &marker, 100);
    push_num_field(&mut front, 420, 8);
    push_num_field(&mut front, 0, 8);
    push_num_field(&mut front, 0, 8);
    push_num_field(&mut front, n, 12);
    push_num_field(&mut front, 0, 12);
    proof {
        assert(front@ =~= long_front(n as nat));
        lemma_long_header_len(n as nat);
    }
    let mut back: Vec<u8> = Vec::new();
    back.push(76u8);
    push_zeros(&mut back, 100);
    back.push(117u8);
    back.push(115u8);
    back.push(116u8);
    back.push(97u8);
    back.push(114u8);
    back.push(32u8);
    back.push(32u8);
    back.push(0u8);
    push_zeros(&mut back, 247);
    proof {
        assert(name_field(Seq::<u8>::empty(), 100) =~= zero_bytes(100));
        assert(back@ =~= long_back());
    }
    let cf = sum_bytes(&front);
    let cb = sum_bytes(&back);
    let ck: u64 = cf + 256 + cb;
    proof {
        assert(ck as nat == long_checksum(n as nat));
    }
    let mut h = front;
    push_octal(&mut h, ck, 6);
    h.push(0u8);
    h.push(32u8);
    let mut b = back;
    h.append(&mut b);
    proof {
        assert(h@ =~= long_front(n as nat) + checksum_field(long_checksum(n as nat)) + long_back());
    }
    h
}

/// Appends one member's stream bytes: a long-name record when the path
/// exceeds the header's name field, then its header, then (for a regular
/// file) its contents padded to whole blocks.
fn append_member(out: &mut Vec<u8>, m: &ArchiveMember)
    requires
        m@.wf(),
    ensures
        final(out)@ == old(out)@ + member_bytes(m@),
{
    let ghost start = out@;
    if m.path.len() > 100 {
        proof {
            lemma_pow8_values();
        }
        let n: u64 = m.path.len() as u64 + 1;
        let mut lh = build_long_header(n);
        out.append(&mut lh);
        push_bytes(out, &m.path);
        out.push(0u8);
        let pad: usize = ((512 - n % 512) % 512) as usize;
        push_zeros(out, pad);
        proof {
            assert(pad as nat == padding_len(m@.path.len() + 1));
            assert(out@ =~= start + long_name_bytes(m@.path));
        }
    }
    let ghost before_plain = out@;
    let mut h = build_header(m);
    let ghost hv = h@;
    out.append(&mut h);
    match m.kind {
        MemberKind::RegularFile => {
            push_bytes(out, &m.content);
            let pad: usize = (512 - m.content.len() % 512) % 512;
            push_zeros(out, pad);
            proof {
                assert(pad as nat == padding_len(m@.content.len()));
                assert(before_plain + (header_bytes(m@) + m@.content + zero_bytes(
                    padding_len(m@.content.len()),
                )) =~= ((before_plain + header_bytes(m@)) + m@.content) + zero_bytes(
                    padding_len(m@.content.len()),
                ));
            }
        }
        _ => {}
    }
    proof {
        assert(out@ =~= before_plain + plain_member_bytes(m@));
        if m@.path.len() > 100 {
            assert(start + (long_name_bytes(m@.path) + plain_member_bytes(m@)) =~= (start
                + long_name_bytes(m@.path)) + plain_member_bytes(m@));
        }
        assert(out@ =~= start + member_bytes(m@));
    }
}

/// Builds the complete archive stream for the given members, in their given
/// order: every member's header and contents, then the end-of-archive
/// marker.  The output is a function of the member list alone.
pub fn build_archive(members: &Vec<ArchiveMember>) -> (r: Vec<u8>)
    requires
        forall|i: int| 0 <= i < members@.len() ==> (#[trigger] members@[i])@.wf(),
    ensures
        r@ == archive_bytes(member_views(members@)),
{
    let mut out: Vec<u8> = Vec::new();
    let mut k: usize = 0;
    proof {
        assert(member_views(members@).take(0int) =~= Seq::<MemberView>::empty());
        assert(out@ =~= members_bytes(member_views(members@).take(0int)));
    }
    while k < members.len()
        invariant
            k <= members@.len(),
            forall|i: int| 0 <= i < members@.len() ==> (#[trigger] members@[i])@.wf(),
            out@ == members_bytes(member_views(members@).take(k as int)),
        decreases members@.len() - k,
    {
        append_member(&mut out, &members[k]);
        proof {
            let vs = member_views(members@);
            assert(vs.take(k as int + 1) =~= vs.take(k as int).push(vs[k as int]));
            lemma_members_bytes_push(vs.take(k as int), vs[k as int]);
            assert(vs[k as int] == members@[k as int]@);
        }
        k = k + 1;
    }
    proof {
        assert(member_views(members@).take(members@.len() as int) =~= member_views(members@));
    }
    push_zeros(&mut out, 1024);
    out
}

/// The extensions that mark a file as meant to be runnable on platforms
/// whose filesystems carry no executable bit.
pub open spec fn runnable_ext(e: Seq<u8>) -> bool {
    ||| e == seq![101u8, 120u8, 101u8]  // exe
    ||| e == seq![100u8, 108u8, 108u8]  // dll
    ||| e == seq![112u8, 121u8]  // py
    ||| e == seq![115u8, 104u8]  // sh
}

/// The mode a file member gets when the platform records no executable bit:
/// files whose extension is on the allow-list are marked executable for
/// every reader, the rest keep their mode.  This is a heuristic, not
/// authoritative metadata.
pub open spec fn synth_exec_mode(path: Seq<u8>, mode: u32) -> u32 {
    match path_ext_spec(path) {
        Some(e) => if runnable_ext(e) {
            mode | 0o111
        } else {
            mode
        },
        None => mode,
    }
}

/// Applies the executable-bit heuristic: on a platform without native
/// executable bits (`native_exec_bits` false), a file named with a runnable
/// extension has the executable bits added to its mode.
pub fn apply_exec_heuristic(path: &Vec<u8>, mode: u32, native_exec_bits: bool) -> (r: u32)
    ensures
        r == if native_exec_bits {
            mode
        } else {
            synth_exec_mode(path@, mode)
        },
        mode < pow8(7) ==> r < pow8(7),
{
    proof {
        lemma_pow8_values();
        assert(mode < 2097152 ==> (mode | 0o111) < 2097152) by (bit_vector);
    }
    if native_exec_bits {
        return mode;
    }
    match path_ext(path) {
        Some(e) => {
            let runnable = (e.len() == 3 && e[0] == 101 && e[1] == 120 && e[2] == 101) || (e.len()
                == 3 && e[0] == 100 && e[1] == 108 && e[2] == 108) || (e.len() == 2 && e[0] == 112
                && e[1] == 121) || (e.len() == 2 && e[0] == 115 && e[1] == 104);
            proof {
                if e@.len() == 3 {
                    assert(e@ =~= seq![e@[0], e@[1], e@[2]]);
                }
                if e@.len() == 2 {
                    assert(e@ =~= seq![e@[0], e@[1]]);
                }
            }
            if runnable {
                mode | 0o111
            } else {
                assert(!runnable_ext(e@));
                mode
            }
        }
        None => mode,
    }
}

} // verus!
