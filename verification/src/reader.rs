//! Reading an archive stream back: the parse specification inverts the
//! stream construction, and the round-trip theorem states that reading what
//! `build_archive` wrote recovers exactly the members that went in.  Used to
//! verify produced archives, not in the write path.

use vstd::prelude::*;

use crate::archive::{
    archive_bytes, byte_sum, checksum_field, header_back, header_bytes, header_checksum,
    header_front, header_name, long_back, long_checksum, long_front, long_header,
    long_name_bytes, magic_bytes, member_bytes, members_bytes, member_views,
    name_field, no_nul, octal, oct_digit, padding_len, plain_member_bytes, pow8, type_flag,
    zero_bytes, lemma_header_len, lemma_long_header_len, lemma_octal_len, lemma_pow8_values,
    ArchiveMember, MemberKind, MemberView,
};
use crate::util::bytes_range;

verus! {

/// A block of 512 zero bytes: the end-of-archive marker.
pub open spec fn is_zero_block(b: Seq<u8>) -> bool {
    b.len() == 512 && forall|i: int| 0 <= i < 512 ==> b[i] == 0
}

/// Every byte an ASCII octal digit.
pub open spec fn octal_digits_ok(s: Seq<u8>) -> bool {
    forall|i: int| 0 <= i < s.len() ==> 48 <= #[trigger] s[i] <= 55
}

/// The value of an octal digit string, most significant first; bytes that
/// are no octal digit count as zero.
pub open spec fn octal_val(s: Seq<u8>) -> nat
    decreases s.len(),
{
    if s.len() == 0 {
        0
    } else {
        octal_val(s.drop_last()) * 8 + (if 48 <= s.last() <= 55 {
            (s.last() - 48) as nat
        } else {
            0
        })
    }
}

/// The bytes before the first NUL.
pub open spec fn nul_terminated(s: Seq<u8>) -> Seq<u8>
    decreases s.len(),
{
    if s.len() == 0 {
        s
    } else if s[0] == 0 {
        Seq::<u8>::empty()
    } else {
        seq![s[0]] + nul_terminated(s.drop_first())
    }
}

/// The member kind a type flag denotes.
pub open spec fn flag_kind(f: u8) -> Option<MemberKind> {
    if f == 48 {
        Some(MemberKind::RegularFile)
    } else if f == 50 {
        Some(MemberKind::Symlink)
    } else if f == 53 {
        Some(MemberKind::Directory)
    } else {
        None
    }
}

/// Is `b` a well-formed header block: magic present, a known type flag,
/// octal digits in every numeric field, and a checksum that matches the
/// block's bytes (the checksum field itself read as eight spaces)?
pub open spec fn header_fields_ok(b: Seq<u8>) -> bool {
    &&& b.len() == 512
    &&& b.subrange(257, 265) == magic_bytes()
    &&& flag_kind(b[156]) is Some
    &&& octal_digits_ok(b.subrange(100, 107)) && b[107] == 0
    &&& octal_digits_ok(b.subrange(108, 115)) && b[115] == 0
    &&& octal_digits_ok(b.subrange(116, 123)) && b[123] == 0
    &&& octal_digits_ok(b.subrange(124, 135)) && b[135] == 0
    &&& octal_digits_ok(b.subrange(136, 147)) && b[147] == 0
    &&& octal_digits_ok(b.subrange(148, 154)) && b[154] == 0 && b[155] == 32
    &&& octal_val(b.subrange(148, 154)) == byte_sum(b.subrange(0, 148)) + 256 + byte_sum(
        b.subrange(156, 512),
    )
}

/// The member a well-formed header block describes, its contents not yet
/// read.
pub open spec fn parsed_header(b: Seq<u8>) -> MemberView
    recommends
        header_fields_ok(b),
{
    MemberView {
        path: nul_terminated(b.subrange(0, 100)),
        kind: flag_kind(b[156])->Some_0,
        mode: octal_val(b.subrange(100, 107)) as u32,
        uid: octal_val(b.subrange(108, 115)) as u32,
        gid: octal_val(b.subrange(116, 123)) as u32,
        mtime: octal_val(b.subrange(136, 147)) as u64,
        link_target: nul_terminated(b.subrange(157, 257)),
        content: Seq::<u8>::empty(),
    }
}

/// The content byte count a header block announces.
pub open spec fn parsed_size(b: Seq<u8>) -> nat {
    octal_val(b.subrange(124, 135))
}

/// Is `b` a well-formed long-name record header: magic present, the
/// long-name type flag, octal digits in the size field, and a matching
/// checksum?
pub open spec fn long_fields_ok(b: Seq<u8>) -> bool {
    &&& b.len() == 512
    &&& b.subrange(257, 265) == magic_bytes()
    &&& b[156] == 76
    &&& octal_digits_ok(b.subrange(124, 135)) && b[135] == 0
    &&& octal_digits_ok(b.subrange(148, 154)) && b[154] == 0 && b[155] == 32
    &&& octal_val(b.subrange(148, 154)) == byte_sum(b.subrange(0, 148)) + 256 + byte_sum(
        b.subrange(156, 512),
    )
}

/// Reading an archive stream: one member per block group until the zero
/// block that marks the end, a long-name record handing the following
/// member its full path; `None` on a truncated or ill-formed stream.
/// `pending` is the path a preceding long-name record announced.
pub open spec fn parse_members_spec(s: Seq<u8>, pending: Option<Seq<u8>>) -> Option<
    Seq<MemberView>,
>
    decreases s.len(),
{
    if s.len() < 512 {
        None
    } else if is_zero_block(s.subrange(0, 512)) {
        if pending is Some {
            None
        } else {
            Some(Seq::<MemberView>::empty())
        }
    } else if long_fields_ok(s.subrange(0, 512)) {
        if pending is Some {
            None
        } else {
            let n = parsed_size(s.subrange(0, 512));
            let total = 512 + n + padding_len(n);
            if s.len() < total {
                None
            } else {
                parse_members_spec(
                    s.skip(total as int),
                    Some(nul_terminated(s.subrange(512, 512 + n as int))),
                )
            }
        }
    } else if !header_fields_ok(s.subrange(0, 512)) {
        None
    } else {
        let h = parsed_header(s.subrange(0, 512));
        let size = parsed_size(s.subrange(0, 512));
        let total = 512 + size + padding_len(size);
        if s.len() < total {
            None
        } else {
            let plain = MemberView { content: s.subrange(512, 512 + size as int), ..h };
            let m = match pending {
                Some(p) => MemberView { path: p, ..plain },
                None => plain,
            };
            match parse_members_spec(s.skip(total as int), None) {
                None => None,
                Some(rest) => Some(seq![m] + rest),
            }
        }
    }
}

/// Reading a complete archive stream, from its start.
pub open spec fn parse_archive_spec(s: Seq<u8>) -> Option<Seq<MemberView>> {
    parse_members_spec(s, None)
}

/// Rendering a value within range as octal digits and reading them back is
/// the identity.
pub proof fn lemma_octal_roundtrip(n: nat, w: nat)
    requires
        n < pow8(w),
    ensures
        octal_digits_ok(octal(n, w)),
        octal_val(octal(n, w)) == n,
    decreases w,
{
    if w == 0 {
        assert(pow8(0) == 1);
    } else {
        assert(n / 8 < pow8((w - 1) as nat)) by {
            assert(n < 8 * pow8((w - 1) as nat));
        }
        lemma_octal_roundtrip(n / 8, (w - 1) as nat);
        lemma_octal_len(n / 8, (w - 1) as nat);
        let prefix = octal(n / 8, (w - 1) as nat);
        let d = oct_digit(n % 8);
        assert(prefix.push(d).drop_last() =~= prefix);
        assert(prefix.push(d).last() == d);
        assert(octal_val(octal(n, w)) == octal_val(prefix) * 8 + (n % 8));
    }
}

/// Reading a NUL-padded name field recovers the NUL-free name.
pub proof fn lemma_nul_terminated_roundtrip(p: Seq<u8>, w: nat)
    requires
        no_nul(p),
        p.len() <= w,
    ensures
        nul_terminated(name_field(p, w)) == p,
    decreases p.len(), w,
{
    let f = name_field(p, w);
    if p.len() == 0 {
        if w == 0 {
            assert(f =~= Seq::<u8>::empty());
        } else {
            assert(f[0] == 0);
            assert(nul_terminated(f) =~= p);
        }
    } else {
        assert(f[0] == p[0]);
        assert(f[0] != 0);
        assert(f.drop_first() =~= name_field(p.drop_first(), (w - 1) as nat));
        lemma_nul_terminated_roundtrip(p.drop_first(), (w - 1) as nat);
        assert(seq![p[0]] + p.drop_first() =~= p);
    }
}

/// A byte sum is at most 255 per byte.
pub proof fn lemma_byte_sum_bound(s: Seq<u8>)
    ensures
        byte_sum(s) <= 255 * s.len(),
    decreases s.len(),
{
    if s.len() > 0 {
        lemma_byte_sum_bound(s.drop_last());
    }
}

/// A well-formed member's header checksum fits its six-digit field.
pub proof fn lemma_checksum_bound(m: MemberView)
    requires
        m.wf(),
    ensures
        header_checksum(m) < pow8(6),
{
    lemma_header_len(m);
    lemma_byte_sum_bound(header_front(m));
    lemma_byte_sum_bound(header_back(m));
    lemma_pow8_values();
}

/// A well-formed member's stream bytes: one header block plus whole blocks
/// of content.
pub proof fn lemma_member_bytes_len(m: MemberView)
    requires
        m.wf(),
    ensures
        plain_member_bytes(m).len() == 512 + m.size_of() + padding_len(m.size_of()),
        member_bytes(m).len() >= 512,
{
    lemma_header_len(m);
    if m.path.len() > 100 {
        lemma_long_header_len(m.path.len() + 1);
    }
}

/// Reading back a well-formed member's header block recovers the member:
/// its kind, mode, owner, times, link target, and as much of its path as
/// the name field holds, with the announced size matching its contents.
#[verifier::rlimit(50)]
pub proof fn lemma_parse_header_roundtrip(m: MemberView)
    requires
        m.wf(),
    ensures
        header_fields_ok(header_bytes(m)),
        parsed_header(header_bytes(m)) == (MemberView {
            path: header_name(m.path),
            content: Seq::<u8>::empty(),
            ..m
        }),
        parsed_size(header_bytes(m)) == m.size_of(),
        !is_zero_block(header_bytes(m)),
{
    let b = header_bytes(m);
    let front = header_front(m);
    let ck = header_checksum(m);
    let chk = checksum_field(ck);
    let back = header_back(m);
    lemma_header_len(m);
    lemma_octal_len(ck, 6);
    lemma_octal_len(m.mode as nat, 7);
    lemma_octal_len(m.uid as nat, 7);
    lemma_octal_len(m.gid as nat, 7);
    lemma_octal_len(m.size_of(), 11);
    lemma_octal_len(m.mtime as nat, 11);
    assert(chk.len() == 8);
    assert(b.len() == 512);
    assert(b.subrange(0, 148) =~= front);
    assert(b.subrange(148, 156) =~= chk);
    assert(b.subrange(156, 512) =~= back);
    assert(header_name(m.path).len() <= 100);
    assert(no_nul(header_name(m.path))) by {
        if m.path.len() > 100 {
            assert(forall|i: int|
                0 <= i < header_name(m.path).len() ==> header_name(m.path)[i] == #[trigger] m.path[i]);
        }
    }
    assert(b.subrange(0, 100) =~= name_field(header_name(m.path), 100));
    assert(b.subrange(100, 107) =~= octal(m.mode as nat, 7));
    assert(b[107] == 0);
    assert(b.subrange(108, 115) =~= octal(m.uid as nat, 7));
    assert(b[115] == 0);
    assert(b.subrange(116, 123) =~= octal(m.gid as nat, 7));
    assert(b[123] == 0);
    assert(b.subrange(124, 135) =~= octal(m.size_of(), 11));
    assert(b[135] == 0);
    assert(b.subrange(136, 147) =~= octal(m.mtime as nat, 11));
    assert(b[147] == 0);
    assert(b.subrange(148, 154) =~= octal(ck, 6));
    assert(b[154] == 0);
    assert(b[155] == 32);
    assert(b[156] == type_flag(m.kind));
    assert(b.subrange(157, 257) =~= name_field(m.link_target, 100));
    assert(b.subrange(257, 265) =~= magic_bytes());
    lemma_pow8_values();
    lemma_checksum_bound(m);
    lemma_octal_roundtrip(m.mode as nat, 7);
    lemma_octal_roundtrip(m.uid as nat, 7);
    lemma_octal_roundtrip(m.gid as nat, 7);
    lemma_octal_roundtrip(m.size_of(), 11);
    lemma_octal_roundtrip(m.mtime as nat, 11);
    lemma_octal_roundtrip(ck, 6);
    lemma_nul_terminated_roundtrip(header_name(m.path), 100);
    lemma_nul_terminated_roundtrip(m.link_target, 100);
    assert(flag_kind(type_flag(m.kind)) == Some(m.kind));
    assert(byte_sum(b.subrange(0, 148)) == byte_sum(front));
    assert(byte_sum(b.subrange(156, 512)) == byte_sum(back));
    assert(header_fields_ok(b));
    assert(parsed_header(b) =~= (MemberView {
        path: header_name(m.path),
        content: Seq::<u8>::empty(),
        ..m
    }));
    assert(b[257] == 117);
    assert(!is_zero_block(b));
}

/// A long-name record's checksum fits its six-digit field.
proof fn lemma_long_checksum_bound(n: nat)
    ensures
        long_checksum(n) < pow8(6),
{
    lemma_long_header_len(n);
    lemma_byte_sum_bound(long_front(n));
    lemma_byte_sum_bound(long_back());
    lemma_pow8_values();
}

/// Reading back a long-name record recovers the full path it carries.
#[verifier::rlimit(50)]
pub proof fn lemma_long_record_roundtrip(p: Seq<u8>)
    requires
        1 <= p.len(),
        p.len() + 1 < pow8(11),
        no_nul(p),
    ensures
        long_name_bytes(p).len() == 512 + (p.len() + 1) + padding_len(p.len() + 1),
        long_fields_ok(long_header(p.len() + 1)),
        !is_zero_block(long_header(p.len() + 1)),
        parsed_size(long_header(p.len() + 1)) == p.len() + 1,
        nul_terminated(p + seq![0u8]) == p,
{
    let n = p.len() + 1;
    let b = long_header(n);
    let front = long_front(n);
    let ck = long_checksum(n);
    lemma_long_header_len(n);
    lemma_octal_len(ck, 6);
    lemma_octal_len(420, 7);
    lemma_octal_len(0, 7);
    lemma_octal_len(n, 11);
    lemma_octal_len(0, 11);
    assert(b.len() == 512);
    assert(b.subrange(0, 148) =~= front);
    assert(b.subrange(148, 156) =~= checksum_field(ck));
    assert(b.subrange(156, 512) =~= long_back());
    assert(b.subrange(124, 135) =~= octal(n, 11));
    assert(b[135] == 0);
    assert(b.subrange(148, 154) =~= octal(ck, 6));
    assert(b[154] == 0);
    assert(b[155] == 32);
    assert(b[156] == 76);
    assert(b.subrange(257, 265) =~= magic_bytes());
    lemma_long_checksum_bound(n);
    lemma_octal_roundtrip(n, 11);
    lemma_octal_roundtrip(ck, 6);
    assert(byte_sum(b.subrange(0, 148)) == byte_sum(front));
    assert(byte_sum(b.subrange(156, 512)) == byte_sum(long_back()));
    assert(long_fields_ok(b));
    assert(b[257] == 117);
    assert(!is_zero_block(b));
    assert(name_field(p, p.len() + 1) =~= p + seq![0u8]);
    lemma_nul_terminated_roundtrip(p, p.len() + 1);
}

/// Reading one member's header and contents consumes exactly them and
/// yields exactly the member, whatever follows; a pending long name, when
/// one precedes, supplies the member's full path.
#[verifier::rlimit(100)]
proof fn lemma_plain_step(m: MemberView, tail: Seq<u8>, pending: Option<Seq<u8>>)
    requires
        m.wf(),
        pending matches Some(p) ==> p == m.path,
        pending is None ==> m.path.len() <= 100,
    ensures
        parse_members_spec(plain_member_bytes(m) + tail, pending) == (match parse_members_spec(
            tail,
            None,
        ) {
            None => None::<Seq<MemberView>>,
            Some(rest) => Some(seq![m] + rest),
        }),
{
    let s = plain_member_bytes(m) + tail;
    let pb = plain_member_bytes(m);
    lemma_header_len(m);
    lemma_member_bytes_len(m);
    lemma_parse_header_roundtrip(m);
    assert(type_flag(m.kind) != 76);
    assert(s.subrange(0, 512) =~= header_bytes(m));
    assert(!is_zero_block(s.subrange(0, 512)));
    assert(s.subrange(0, 512)[156] == type_flag(m.kind));
    assert(!long_fields_ok(s.subrange(0, 512)));
    assert(header_fields_ok(s.subrange(0, 512)));
    let size = parsed_size(s.subrange(0, 512));
    assert(size == m.size_of());
    let total = 512 + size + padding_len(size);
    assert(total == pb.len());
    assert(s.len() >= total);
    assert(s.subrange(512, 512 + size as int) =~= m.content) by {
        if m.kind == MemberKind::RegularFile {
            assert(pb =~= header_bytes(m) + m.content + zero_bytes(padding_len(m.content.len())));
        } else {
            assert(m.content.len() == 0);
        }
    }
    let h = parsed_header(s.subrange(0, 512));
    let plain = MemberView { content: s.subrange(512, 512 + size as int), ..h };
    match pending {
        Some(p) => {
            assert(MemberView { path: p, ..plain } =~= m);
        }
        None => {
            assert(plain =~= m);
        }
    }
    assert(s.skip(total as int) =~= tail);
}

/// Reading one member's stream bytes — long-name record included — consumes
/// exactly them and yields exactly the member, whatever follows them.
#[verifier::rlimit(100)]
proof fn lemma_member_step(m: MemberView, tail: Seq<u8>)
    requires
        m.wf(),
    ensures
        parse_members_spec(member_bytes(m) + tail, None) == (match parse_members_spec(tail, None) {
            None => None::<Seq<MemberView>>,
            Some(rest) => Some(seq![m] + rest),
        }),
{
    let s = member_bytes(m) + tail;
    let pb = plain_member_bytes(m);
    if m.path.len() <= 100 {
        assert(member_bytes(m) == pb);
        lemma_plain_step(m, tail, None);
    } else {
        let n = m.path.len() + 1;
        lemma_long_record_roundtrip(m.path);
        lemma_member_bytes_len(m);
        let lb = long_name_bytes(m.path);
        assert(s =~= lb + (pb + tail)) by {
            assert(member_bytes(m) == lb + pb);
            assert((lb + pb) + tail =~= lb + (pb + tail));
        }
        assert(s.subrange(0, 512) =~= long_header(n));
        assert(!is_zero_block(s.subrange(0, 512)));
        assert(long_fields_ok(s.subrange(0, 512)));
        let size1 = parsed_size(s.subrange(0, 512));
        assert(size1 == n);
        let total1 = 512 + size1 + padding_len(size1);
        assert(total1 == lb.len());
        assert(s.len() >= total1);
        assert(s.subrange(512, 512 + n as int) =~= m.path + seq![0u8]) by {
            assert(lb =~= long_header(n) + (m.path + seq![0u8]) + zero_bytes(padding_len(n)));
        }
        assert(nul_terminated(s.subrange(512, 512 + size1 as int)) == m.path);
        let s1 = s.skip(total1 as int);
        assert(s1 =~= pb + tail);
        assert(parse_members_spec(s, None) == parse_members_spec(s1, Some(m.path)));
        lemma_plain_step(m, tail, Some(m.path));
    }
}

/// The round-trip theorem: reading back the stream that `archive_bytes`
/// gives for well-formed members recovers exactly those members, in order,
/// with their paths (of any length), kinds, metadata, contents, and link
/// targets.
pub proof fn lemma_archive_roundtrip(ms: Seq<MemberView>)
    requires
        forall|i: int| 0 <= i < ms.len() ==> (#[trigger] ms[i]).wf(),
    ensures
        parse_archive_spec(archive_bytes(ms)) == Some(ms),
    decreases ms.len(),
{
    let s = archive_bytes(ms);
    if ms.len() == 0 {
        assert(members_bytes(ms) =~= Seq::<u8>::empty());
        assert(s =~= zero_bytes(1024));
        assert(s.len() == 1024);
        assert(is_zero_block(s.subrange(0, 512)));
        assert(parse_members_spec(s, None) == Some(Seq::<MemberView>::empty()));
        assert(ms =~= Seq::<MemberView>::empty());
    } else {
        let m0 = ms[0];
        assert(m0.wf());
        let rest = archive_bytes(ms.drop_first());
        assert(s =~= member_bytes(m0) + rest) by {
            assert(members_bytes(ms) == member_bytes(m0) + members_bytes(ms.drop_first()));
            assert((member_bytes(m0) + members_bytes(ms.drop_first())) + zero_bytes(1024)
                =~= member_bytes(m0) + (members_bytes(ms.drop_first()) + zero_bytes(1024)));
        }
        lemma_member_step(m0, rest);
        lemma_archive_roundtrip(ms.drop_first());
        assert(parse_members_spec(s, None) == Some(seq![m0] + ms.drop_first()));
        assert(seq![m0] + ms.drop_first() =~= ms);
    }
}

/// Powers of eight are monotone in the exponent.
proof fn lemma_pow8_le(a: nat, b: nat)
    requires
        a <= b,
    ensures
        pow8(a) <= pow8(b),
    decreases b,
{
    if a < b {
        lemma_pow8_le(a, (b - 1) as nat);
        assert(pow8(b) == 8 * pow8((b - 1) as nat));
    }
}

/// Is the block at `pos` all zero?
fn zero_block_at(data: &Vec<u8>, pos: usize) -> (r: bool)
    requires
        pos + 512 <= data@.len(),
    ensures
        r == is_zero_block(data@.subrange(pos as int, pos as int + 512)),
{
    let dlen = data.len();
    let mut i: usize = 0;
    proof {
        assert(dlen == data@.len());
    }
    while i < 512
        invariant
            i <= 512,
            pos + 512 <= data@.len(),
            data@.len() <= usize::MAX,
            forall|j: int| 0 <= j < i ==> #[trigger] data@[pos + j] == 0,
        decreases 512 - i,
    {
        if data[pos + i] != 0 {
            assert(data@.subrange(pos as int, pos as int + 512)[i as int] != 0);
            return false;
        }
        i = i + 1;
    }
    assert forall|j: int| 0 <= j < 512 implies #[trigger] data@.subrange(
        pos as int,
        pos as int + 512,
    )[j] == 0 by {
        assert(data@.subrange(pos as int, pos as int + 512)[j] == data@[pos + j]);
    }
    true
}

/// Reads `w` octal digits at `pos`; fails exactly when a byte there is no
/// octal digit.
fn read_octal(data: &Vec<u8>, pos: usize, w: usize) -> (r: Option<u64>)
    requires
        pos + w <= data@.len(),
        w <= 11,
    ensures
        match r {
            Some(v) => {
                &&& octal_digits_ok(data@.subrange(pos as int, pos as int + w))
                &&& v as nat == octal_val(data@.subrange(pos as int, pos as int + w))
                &&& (v as nat) < pow8(w as nat)
            },
            None => !octal_digits_ok(data@.subrange(pos as int, pos as int + w)),
        },
{
    let ghost full = data@.subrange(pos as int, pos as int + w);
    let dlen = data.len();
    let mut v: u64 = 0;
    let mut i: usize = 0;
    proof {
        assert(dlen == data@.len());
        lemma_pow8_values();
        assert(full.take(0int) =~= Seq::<u8>::empty());
    }
    while i < w
        invariant
            i <= w <= 11,
            pos + w <= data@.len(),
            data@.len() <= usize::MAX,
            full == data@.subrange(pos as int, pos as int + w),
            v as nat == octal_val(full.take(i as int)),
            (v as nat) < pow8(i as nat),
            forall|j: int| 0 <= j < i ==> 48 <= #[trigger] full[j] <= 55,
        decreases w - i,
    {
        let b = data[pos + i];
        proof {
            assert(full[i as int] == data@[pos + i]);
        }
        if b < 48 || b > 55 {
            return None;
        }
        proof {
            lemma_pow8_le((i + 1) as nat, 11nat);
            lemma_pow8_values();
            assert(full.take(i as int + 1).drop_last() =~= full.take(i as int));
            assert(full.take(i as int + 1).last() == full[i as int]);
        }
        v = v * 8 + (b - 48) as u64;
        i = i + 1;
    }
    proof {
        assert(full.take(w as int) =~= full);
        lemma_pow8_le(w as nat, 11nat);
        lemma_pow8_values();
    }
    Some(v)
}

/// Reads a NUL-terminated name field of width `w` at `pos`.
fn read_name(data: &Vec<u8>, pos: usize, w: usize) -> (r: Vec<u8>)
    requires
        pos + w <= data@.len(),
    ensures
        r@ == nul_terminated(data@.subrange(pos as int, pos as int + w)),
{
    let ghost full = data@.subrange(pos as int, pos as int + w);
    let dlen = data.len();
    let mut out: Vec<u8> = Vec::new();
    let mut i: usize = 0;
    proof {
        assert(dlen == data@.len());
        assert(full.subrange(0int, full.len() as int) =~= full);
        assert(out@ + nul_terminated(full) =~= nul_terminated(full));
    }
    while i < w
        invariant
            i <= w,
            pos + w <= data@.len(),
            data@.len() <= usize::MAX,
            full == data@.subrange(pos as int, pos as int + w),
            nul_terminated(full) == out@ + nul_terminated(
                full.subrange(i as int, full.len() as int),
            ),
        decreases w - i,
    {
        let ghost rest = full.subrange(i as int, full.len() as int);
        proof {
            assert(rest[0] == full[i as int]);
            assert(full[i as int] == data@[pos + i]);
            assert(rest.drop_first() =~= full.subrange(i as int + 1, full.len() as int));
        }
        let b = data[pos + i];
        if b == 0 {
            proof {
                assert(nul_terminated(rest) =~= Seq::<u8>::empty());
                assert(out@ + Seq::<u8>::empty() =~= out@);
            }
            return out;
        }
        out.push(b);
        proof {
            assert(nul_terminated(rest) == seq![rest[0]] + nul_terminated(rest.drop_first()));
            assert(out@ + nul_terminated(rest.drop_first()) =~= (out@.drop_last() + (seq![rest[0]]
                + nul_terminated(rest.drop_first()))));
        }
        i = i + 1;
    }
    proof {
        assert(full.subrange(w as int, full.len() as int) =~= Seq::<u8>::empty());
        assert(out@ + Seq::<u8>::empty() =~= out@);
    }
    out
}

/// Sums the byte values of `data[a..b]`.
fn sum_range(data: &Vec<u8>, a: usize, b: usize) -> (r: u64)
    requires
        a <= b <= data@.len(),
        b - a <= 512,
    ensures
        r as nat == byte_sum(data@.subrange(a as int, b as int)),
        r <= 255 * 512,
{
    let mut acc: u64 = 0;
    let mut i: usize = a;
    proof {
        assert(data@.subrange(a as int, a as int) =~= Seq::<u8>::empty());
    }
    while i < b
        invariant
            a <= i <= b <= data@.len(),
            b - a <= 512,
            acc as nat == byte_sum(data@.subrange(a as int, i as int)),
            acc <= 255 * (i - a),
        decreases b - i,
    {
        proof {
            assert(data@.subrange(a as int, i as int + 1).drop_last() =~= data@.subrange(
                a as int,
                i as int,
            ));
            assert(data@.subrange(a as int, i as int + 1).last() == data@[i as int]);
        }
        acc = acc + data[i] as u64;
        i = i + 1;
    }
    acc
}

/// Reads the header block at `pos`.  Returns the member it describes (its
/// contents not yet read) and its announced size; fails exactly when the
/// block is not a well-formed header.
#[verifier::rlimit(100)]
fn parse_header_at(data: &Vec<u8>, pos: usize) -> (r: Option<(ArchiveMember, u64)>)
    requires
        pos + 512 <= data@.len(),
    ensures
        match r {
            Some(p) => {
                &&& header_fields_ok(data@.subrange(pos as int, pos as int + 512))
                &&& p.0@ == parsed_header(data@.subrange(pos as int, pos as int + 512))
                &&& p.1 as nat == parsed_size(data@.subrange(pos as int, pos as int + 512))
                &&& p.1 < 8589934592
            },
            None => !header_fields_ok(data@.subrange(pos as int, pos as int + 512)),
        },
{
    let n = data.len();
    let ghost b = data@.subrange(pos as int, pos as int + 512);
    proof {
        assert(pos + 512 <= n);
        assert forall|lo: int, hi: int| 0 <= lo <= hi <= 512 implies b.subrange(lo, hi)
            =~= data@.subrange(pos + lo, pos + hi) by {}
    }
    let mut magic: Vec<u8> = Vec::new();
    magic.push(117u8);
    magic.push(115u8);
    magic.push(116u8);
    magic.push(97u8);
    magic.push(114u8);
    magic.push(32u8);
    magic.push(32u8);
    magic.push(0u8);
    proof {
        assert(magic@ =~= magic_bytes());
    }
    let got = bytes_range(data, pos + 257, pos + 265);
    if !crate::util::bytes_eq(&got, &magic) {
        assert(b.subrange(257, 265) != magic_bytes());
        return None;
    }
    let flag = data[pos + 156];
    proof {
        assert(b[156] == data@[pos + 156]);
    }
    let kind = if flag == 48 {
        MemberKind::RegularFile
    } else if flag == 50 {
        MemberKind::Symlink
    } else if flag == 53 {
        MemberKind::Directory
    } else {
        assert(flag_kind(b[156]) is None);
        return None;
    };
    let mode = match read_octal(data, pos + 100, 7) {
        Some(v) => v,
        None => {
            return None;
        },
    };
    if data[pos + 107] != 0 {
        assert(b[107] != 0);
        return None;
    }
    let uid = match read_octal(data, pos + 108, 7) {
        Some(v) => v,
        None => {
            return None;
        },
    };
    if data[pos + 115] != 0 {
        assert(b[115] != 0);
        return None;
    }
    let gid = match read_octal(data, pos + 116, 7) {
        Some(v) => v,
        None => {
            return None;
        },
    };
    if data[pos + 123] != 0 {
        assert(b[123] != 0);
        return None;
    }
    let size = match read_octal(data, pos + 124, 11) {
        Some(v) => v,
        None => {
            return None;
        },
    };
    if data[pos + 135] != 0 {
        assert(b[135] != 0);
        return None;
    }
    let mtime = match read_octal(data, pos + 136, 11) {
        Some(v) => v,
        None => {
            return None;
        },
    };
    if data[pos + 147] != 0 {
        assert(b[147] != 0);
        return None;
    }
    let ck = match read_octal(data, pos + 148, 6) {
        Some(v) => v,
        None => {
            return None;
        },
    };
    if data[pos + 154] != 0 {
        assert(b[154] != 0);
        return None;
    }
    if data[pos + 155] != 32 {
        assert(b[155] != 32);
        return None;
    }
    let sum_front = sum_range(data, pos, pos + 148);
    let sum_back = sum_range(data, pos + 156, pos + 512);
    if ck != sum_front + 256 + sum_back {
        assert(octal_val(b.subrange(148, 154)) != byte_sum(b.subrange(0, 148)) + 256 + byte_sum(
            b.subrange(156, 512),
        ));
        return None;
    }
    let path = read_name(data, pos, 100);
    let link_target = read_name(data, pos + 157, 100);
    proof {
        lemma_pow8_values();
        assert(header_fields_ok(b));
    }
    let member = ArchiveMember {
        path,
        kind,
        mode: mode as u32,
        uid: uid as u32,
        gid: gid as u32,
        mtime,
        link_target,
        content: Vec::new(),
    };
    proof {
        assert(member@ =~= parsed_header(b));
    }
    Some((member, size))
}

/// Reads the long-name record header at `pos`.  Returns the announced name
/// size; fails exactly when the block is not a well-formed long-name
/// record.
fn parse_longname_at(data: &Vec<u8>, pos: usize) -> (r: Option<u64>)
    requires
        pos + 512 <= data@.len(),
    ensures
        match r {
            Some(n) => {
                &&& long_fields_ok(data@.subrange(pos as int, pos as int + 512))
                &&& n as nat == parsed_size(data@.subrange(pos as int, pos as int + 512))
                &&& n < 8589934592
            },
            None => !long_fields_ok(data@.subrange(pos as int, pos as int + 512)),
        },
{
    let dlen = data.len();
    let ghost b = data@.subrange(pos as int, pos as int + 512);
    proof {
        assert(dlen == data@.len());
        assert forall|lo: int, hi: int| 0 <= lo <= hi <= 512 implies b.subrange(lo, hi)
            =~= data@.subrange(pos + lo, pos + hi) by {}
    }
    let mut magic: Vec<u8> = Vec::new();
    magic.push(117u8);
    magic.push(115u8);
    magic.push(116u8);
    magic.push(97u8);
    magic.push(114u8);
    magic.push(32u8);
    magic.push(32u8);
    magic.push(0u8);
    proof {
        assert(magic@ =~= magic_bytes());
    }
    let got = bytes_range(data, pos + 257, pos + 265);
    if !crate::util::bytes_eq(&got, &magic) {
        assert(b.subrange(257, 265) != magic_bytes());
        return None;
    }
    if data[pos + 156] != 76 {
        proof {
            assert(b[156] == data@[pos + 156]);
        }
        return None;
    }
    proof {
        assert(b[156] == data@[pos + 156]);
    }
    let size = match read_octal(data, pos + 124, 11) {
        Some(v) => v,
        None => {
            return None;
        },
    };
    if data[pos + 135] != 0 {
        assert(b[135] != 0);
        return None;
    }
    let ck = match read_octal(data, pos + 148, 6) {
        Some(v) => v,
        None => {
            return None;
        },
    };
    if data[pos + 154] != 0 {
        assert(b[154] != 0);
        return None;
    }
    if data[pos + 155] != 32 {
        assert(b[155] != 32);
        return None;
    }
    let sum_front = sum_range(data, pos, pos + 148);
    let sum_back = sum_range(data, pos + 156, pos + 512);
    if ck != sum_front + 256 + sum_back {
        assert(octal_val(b.subrange(148, 154)) != byte_sum(b.subrange(0, 148)) + 256 + byte_sum(
            b.subrange(156, 512),
        ));
        return None;
    }
    proof {
        lemma_pow8_values();
        assert(long_fields_ok(b));
    }
    Some(size)
}

/// Reads a complete archive stream back into its members.  Succeeds exactly
/// when the specification-level parse succeeds, and then returns exactly
/// the members it denotes, long names included.
pub fn parse_archive(data: &Vec<u8>) -> (r: Option<Vec<ArchiveMember>>)
    ensures
        match r {
            Some(v) => parse_archive_spec(data@) == Some(member_views(v@)),
            None => parse_archive_spec(data@) is None,
        },
{
    let mut out: Vec<ArchiveMember> = Vec::new();
    let mut pending: Option<Vec<u8>> = None;
    let mut pos: usize = 0;
    proof {
        assert(data@.skip(0int) =~= data@);
        assert(member_views(out@) =~~= Seq::<MemberView>::empty());
    }
    loop
        invariant
            pos <= data@.len(),
            ({
                let pview = match pending {
                    Some(p) => Some(p@),
                    None => None::<Seq<u8>>,
                };
                match parse_members_spec(data@.skip(pos as int), pview) {
                    Some(tail) => parse_archive_spec(data@) == Some(member_views(out@) + tail),
                    None => parse_archive_spec(data@) is None,
                }
            }),
        decreases data@.len() - pos,
    {
        let ghost s = data@.skip(pos as int);
        let ghost pview = match pending {
            Some(ref p) => Some(p@),
            None => None::<Seq<u8>>,
        };
        if data.len() - pos < 512 {
            assert(parse_members_spec(s, pview) is None);
            return None;
        }
        proof {
            assert(s.subrange(0, 512) =~= data@.subrange(pos as int, pos as int + 512));
        }
        if zero_block_at(data, pos) {
            match pending {
                Some(_) => {
                    assert(parse_members_spec(s, pview) is None);
                    return None;
                }
                None => {
                    proof {
                        assert(parse_members_spec(s, pview) == Some(Seq::<MemberView>::empty()));
                        assert(member_views(out@) + Seq::<MemberView>::empty() =~= member_views(
                            out@,
                        ));
                    }
                    return Some(out);
                }
            }
        }
        if let Some(lsize) = parse_longname_at(data, pos) {
            if pending.is_some() {
                assert(parse_members_spec(s, pview) is None);
                return None;
            }
            let lpad: u64 = (512 - lsize % 512) % 512;
            let ltotal: u64 = 512 + lsize + lpad;
            proof {
                assert(lpad as nat == padding_len(lsize as nat));
                assert(parsed_size(s.subrange(0, 512)) == lsize as nat);
            }
            let remaining: u64 = (data.len() - pos) as u64;
            if remaining < ltotal {
                assert(parse_members_spec(s, pview) is None);
                return None;
            }
            let name = read_name(data, pos + 512, lsize as usize);
            proof {
                assert(data@.subrange(pos + 512, pos + 512 + lsize as int) =~= s.subrange(
                    512,
                    512 + lsize as int,
                ));
                assert(name@ == nul_terminated(s.subrange(512, 512 + lsize as int)));
                assert(s.skip(512 + lsize as int + padding_len(lsize as nat) as int) =~= data@.skip(
                    pos + ltotal as int,
                ));
            }
            pending = Some(name);
            pos = pos + ltotal as usize;
        } else {
            let (header_member, size) = match parse_header_at(data, pos) {
                Some(p) => p,
                None => {
                    assert(parse_members_spec(s, pview) is None);
                    return None;
                },
            };
            let pad: u64 = (512 - size % 512) % 512;
            let total: u64 = 512 + size + pad;
            proof {
                assert(pad as nat == padding_len(size as nat));
                assert(parsed_size(s.subrange(0, 512)) == size as nat);
            }
            let remaining: u64 = (data.len() - pos) as u64;
            if remaining < total {
                assert(parse_members_spec(s, pview) is None);
                return None;
            }
            let csize: usize = size as usize;
            let content = bytes_range(data, pos + 512, pos + 512 + csize);
            proof {
                assert(content@ =~= s.subrange(512, 512 + size as int));
            }
            let cur_pending = pending;
            pending = None;
            let member_path = match cur_pending {
                Some(p) => p,
                None => header_member.path,
            };
            let member = ArchiveMember {
                path: member_path,
                kind: header_member.kind,
                mode: header_member.mode,
                uid: header_member.uid,
                gid: header_member.gid,
                mtime: header_member.mtime,
                link_target: header_member.link_target,
                content,
            };
            let ghost old_out = out@;
            proof {
                let h = parsed_header(s.subrange(0, 512));
                let plain = MemberView { content: s.subrange(512, 512 + size as int), ..h };
                let m = match pview {
                    Some(p) => MemberView { path: p, ..plain },
                    None => plain,
                };
                assert(member@ =~= m);
            }
            out.push(member);
            proof {
                let h = parsed_header(s.subrange(0, 512));
                let plain = MemberView { content: s.subrange(512, 512 + size as int), ..h };
                let m = match pview {
                    Some(p) => MemberView { path: p, ..plain },
                    None => plain,
                };
                assert(s.skip(512 + size as int + padding_len(size as nat) as int) =~= data@.skip(
                    pos + total as int,
                ));
                assert(member_views(out@) =~~= member_views(old_out).push(m));
                match parse_members_spec(data@.skip(pos + total as int), None) {
                    Some(rest) => {
                        assert(parse_members_spec(s, pview) == Some(seq![m] + rest));
                        assert(member_views(old_out) + (seq![m] + rest) =~~= member_views(out@)
                            + rest);
                    }
                    None => {
                        assert(parse_members_spec(s, pview) is None);
                    }
                }
            }
            pos = pos + total as usize;
        }
    }
}

} // verus!
