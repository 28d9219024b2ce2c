//! The orchestrator: turns the collected members of one directory tree into
//! one archive stream and one compressed output per requested format.  The
//! member order is directories first in collection order, then files in
//! reverse-byte path order; every output encodes the same stream.  Member
//! metadata, modification times included, is archived exactly as collected
//! and never normalized, so an unmodified tree yields the same stream run
//! over run.

use vstd::prelude::*;
use vstd::multiset::Multiset;
use vstd::relations::sorted_by;

use crate::archive::{
    archive_bytes, build_archive, member_views, no_dotdot, no_nul, pow8, synth_exec_mode,
    apply_exec_heuristic, lemma_pow8_values, ArchiveMember, MemberKind, MemberView,
};
use crate::reader::{lemma_archive_roundtrip, parse_archive};
use crate::compression::{encodes, CompressionFormat, CompressionFormats};
use crate::error::Error;
use crate::sort::{lemma_rev_le_antisymmetric, lemma_rev_le_total, lemma_rev_le_transitive,
    rev_le, rev_le_bytes};
use crate::util::{bytes_eq, clone_bytes, lemma_split_count, split_bytes, split_spec, views_of};

verus! {

/// The archive-member order: by path, in reverse-byte order.
pub open spec fn member_order() -> spec_fn(MemberView, MemberView) -> bool {
    |a: MemberView, b: MemberView| rev_le(a.path, b.path)
}

/// No two members share a path, as a filesystem walk guarantees.
pub open spec fn paths_unique(ms: Seq<MemberView>) -> bool {
    forall|i: int, j: int| 0 <= i < j < ms.len() ==> ms[i].path != ms[j].path
}

/// Configuration of one archive run: which directory to pack, under which
/// working directory, and the output path prefix.
#[derive(Debug, Clone)]
pub struct Tarballer {
    /// The input folder to be compressed, relative to the work directory.
    pub input: String,
    /// The prefix of the produced archive files.
    pub output: String,
    /// The folder in which the input is to be found.
    pub work_dir: String,
}

impl Default for Tarballer {
    /// The default run configuration.
    fn default() -> (r: Self)
        ensures
            r.input@ == "package"@,
            r.output@ == "./dist"@,
            r.work_dir@ == "./workdir"@,
    {
        Tarballer {
            input: "package".to_string(),
            output: "./dist".to_string(),
            work_dir: "./workdir".to_string(),
        }
    }
}

impl Tarballer {
    /// Sets the input folder to be compressed.
    pub fn input(self, value: String) -> (r: Self)
        ensures
            r.input == value,
            r.output == self.output,
            r.work_dir == self.work_dir,
    {
        Tarballer { input: value, ..self }
    }

    /// Sets the prefix of the produced archive files.
    pub fn output(self, value: String) -> (r: Self)
        ensures
            r.output == value,
            r.input == self.input,
            r.work_dir == self.work_dir,
    {
        Tarballer { output: value, ..self }
    }

    /// Sets the folder in which the input is to be found.
    pub fn work_dir(self, value: String) -> (r: Self)
        ensures
            r.work_dir == value,
            r.input == self.input,
            r.output == self.output,
    {
        Tarballer { work_dir: value, ..self }
    }
}

/// How deep below its starting directory a path's components end up: a
/// parent step goes up, the current directory and empty components stay, a
/// name goes down.
pub open spec fn depth_after(toks: Seq<Seq<u8>>) -> int
    decreases toks.len(),
{
    if toks.len() == 0 {
        0
    } else {
        let d = depth_after(toks.drop_last());
        let t = toks.last();
        if t == seq![46u8, 46u8] {
            d - 1
        } else if t == seq![46u8] || t.len() == 0 {
            d
        } else {
            d + 1
        }
    }
}

/// No prefix of the components ever steps above the starting directory.
pub open spec fn never_escapes(toks: Seq<Seq<u8>>) -> bool {
    forall|i: int| 0 <= i <= toks.len() ==> depth_after(#[trigger] toks.take(i)) >= 0
}

/// Is the requested input path usable: nonempty, relative, and lying inside
/// the work directory — no prefix of its components steps above it?
pub open spec fn input_path_ok(name: Seq<u8>) -> bool {
    &&& name.len() >= 1
    &&& name[0] != 47
    &&& never_escapes(split_spec(name, 47))
}

/// Checks that the input path is a relative subpath lying inside the work
/// directory; anything else — an empty or absolute path, or one whose
/// parent steps escape upward — is a configuration error carrying the
/// offending path.
pub fn check_input_path(name: &Vec<u8>) -> (r: Result<(), Error>)
    ensures
        r matches Ok(u) ==> input_path_ok(name@),
        r matches Err(e) ==> !input_path_ok(name@) && (e matches Error::InputNotRelative(p) && p@
            == name@),
{
    if name.len() == 0 || name[0] == 47 {
        return Err(Error::InputNotRelative(clone_bytes(name)));
    }
    let toks = split_bytes(name, 47);
    let tcount = toks.len();
    let ghost tv = split_spec(name@, 47);
    proof {
        lemma_split_count(name@, 47);
        assert(tcount == toks@.len());
        assert(tv.take(0int) =~~= Seq::<Seq<u8>>::empty());
    }
    let mut depth: usize = 0;
    let mut i: usize = 0;
    while i < tcount
        invariant
            i <= toks@.len(),
            tcount == toks@.len(),
            views_of(toks@) == tv,
            tv == split_spec(name@, 47),
            depth <= i,
            depth as int == depth_after(tv.take(i as int)),
            forall|j: int| 0 <= j <= i ==> depth_after(#[trigger] tv.take(j)) >= 0,
        decreases toks@.len() - i,
    {
        let t = &toks[i];
        proof {
            assert(views_of(toks@)[i as int] == toks@[i as int]@);
            assert(tv.take(i as int + 1).drop_last() =~~= tv.take(i as int));
            assert(tv.take(i as int + 1).last() == tv[i as int]);
            if t@.len() == 2 {
                assert(t@ =~= seq![t@[0], t@[1]]);
            }
            if t@.len() == 1 {
                assert(t@ =~= seq![t@[0]]);
            }
        }
        let is_parent = t.len() == 2 && t[0] == 46 && t[1] == 46;
        let is_stay = t.len() == 0 || (t.len() == 1 && t[0] == 46);
        if is_parent {
            if depth == 0 {
                proof {
                    assert(depth_after(tv.take(i as int + 1)) == -1);
                    assert(!never_escapes(tv));
                }
                return Err(Error::InputNotRelative(clone_bytes(name)));
            }
            depth = depth - 1;
        } else if !is_stay {
            depth = depth + 1;
        }
        i = i + 1;
    }
    proof {
        assert(tv.take(tv.len() as int) =~~= tv);
    }
    Ok(())
}

/// The file name of one format's output: the prefix, the archive suffix,
/// and the format's extension.
pub open spec fn output_name_spec(prefix: Seq<u8>, fmt: CompressionFormat) -> Seq<u8> {
    prefix + seq![46u8, 116u8, 97u8, 114u8, 46u8] + fmt.extension_spec()
}

/// Computes `<prefix>.tar.<ext>` for one format.
pub fn output_name(prefix: &Vec<u8>, fmt: CompressionFormat) -> (r: Vec<u8>)
    ensures
        r@ == output_name_spec(prefix@, fmt),
{
    let mut r: Vec<u8> = Vec::new();
    r.extend_from_slice(prefix.as_slice());
    r.push(46u8);
    r.push(116u8);
    r.push(97u8);
    r.push(114u8);
    r.push(46u8);
    let mut e = fmt.extension();
    r.append(&mut e);
    proof {
        assert(r@ =~= output_name_spec(prefix@, fmt));
    }
    r
}

/// The output names of one run, in format order.  These are both the stale
/// files a run removes first and the files it then writes, so a rerun over
/// the same prefix never collides with its own leftovers.
pub fn output_names(prefix: &Vec<u8>, formats: &CompressionFormats) -> (r: Vec<Vec<u8>>)
    ensures
        r@.len() == formats@.len(),
        forall|i: int|
            0 <= i < r@.len() ==> #[trigger] r@[i]@ == output_name_spec(prefix@, formats@[i]),
{
    let mut r: Vec<Vec<u8>> = Vec::new();
    let mut i: usize = 0;
    while i < formats.len()
        invariant
            i <= formats@.len(),
            r@.len() == i,
            forall|j: int|
                0 <= j < i ==> #[trigger] r@[j]@ == output_name_spec(prefix@, formats@[j]),
        decreases formats@.len() - i,
    {
        r.push(output_name(prefix, formats.get(i)));
        i = i + 1;
    }
    r
}

/// Sorts members into reverse-byte path order: the result is sorted and
/// holds exactly the given members.
pub fn sort_members(v: Vec<ArchiveMember>) -> (r: Vec<ArchiveMember>)
    ensures
        sorted_by(member_views(r@), member_order()),
        member_views(r@).to_multiset() == member_views(v@).to_multiset(),
{
    let ghost orig = member_views(v@);
    let mut rest = v;
    let mut out: Vec<ArchiveMember> = Vec::new();
    proof {
        assert(member_views(out@) =~~= Seq::<MemberView>::empty());
        vstd::seq_lib::to_multiset_len(member_views(out@));
        assert(member_views(out@).to_multiset().add(member_views(rest@).to_multiset())
            =~= orig.to_multiset());
    }
    while rest.len() > 0
        invariant
            sorted_by(member_views(out@), member_order()),
            member_views(out@).to_multiset().add(member_views(rest@).to_multiset())
                == orig.to_multiset(),
        decreases rest@.len(),
    {
        let ghost before = member_views(rest@);
        let x = rest.remove(0);
        let ghost xv = x@;
        proof {
            assert(before[0] == xv);
            assert(member_views(rest@) =~~= before.remove(0));
            vstd::seq_lib::to_multiset_remove(before, 0);
            vstd::seq_lib::to_multiset_contains(before, xv);
            assert(before.contains(xv));
        }
        let ghost old_views = member_views(out@);
        let mut p: usize = 0;
        while p < out.len() && rev_le_bytes(&out[p].path, &x.path)
            invariant
                p <= out@.len(),
                xv == x@,
                old_views == member_views(out@),
                forall|i: int| 0 <= i < p ==> rev_le((#[trigger] member_views(out@)[i]).path, xv.path),
            decreases out@.len() - p,
        {
            assert(member_views(out@)[p as int] == out@[p as int]@);
            p = p + 1;
        }
        proof {
            if p < out@.len() {
                lemma_rev_le_total(old_views[p as int].path, xv.path);
                assert(rev_le(xv.path, old_views[p as int].path));
            }
            assert forall|j: int| p <= j < old_views.len() implies rev_le(
                xv.path,
                (#[trigger] old_views[j]).path,
            ) by {
                if j > p {
                    assert(member_order()(old_views[p as int], old_views[j]));
                    lemma_rev_le_transitive(xv.path, old_views[p as int].path, old_views[j].path);
                }
            }
        }
        out.insert(p, x);
        proof {
            assert(member_views(out@) =~~= old_views.insert(p as int, xv));
            let nv = member_views(out@);
            assert forall|i: int, j: int| 0 <= i < j < nv.len() implies #[trigger] member_order()(
                nv[i],
                nv[j],
            ) by {
                if j < p {
                    assert(member_order()(old_views[i], old_views[j]));
                } else if i < p && j == p {
                    assert(rev_le(old_views[i].path, xv.path));
                } else if i < p && j > p {
                    assert(member_order()(old_views[i], old_views[j - 1]));
                } else if i == p {
                    assert(rev_le(xv.path, old_views[j - 1].path));
                } else {
                    assert(member_order()(old_views[i - 1], old_views[j - 1]));
                }
            }
            vstd::seq_lib::to_multiset_insert(old_views, p as int, xv);
            broadcast use vstd::multiset::group_multiset_axioms;
            vstd::seq_lib::to_multiset_contains(before, xv);
            assert(before.to_multiset().count(xv) > 0);
            assert(nv.to_multiset().add(member_views(rest@).to_multiset()) =~= old_views.to_multiset().add(
                before.to_multiset(),
            ));
        }
    }
    proof {
        vstd::seq_lib::to_multiset_len(member_views(rest@));
        assert(member_views(rest@) =~~= Seq::<MemberView>::empty());
        broadcast use vstd::multiset::group_multiset_axioms;
        assert(member_views(rest@).to_multiset() =~= Multiset::<MemberView>::empty());
        assert(member_views(out@).to_multiset() =~= orig.to_multiset());
    }
    out
}

/// Sortedness, the member multiset, and path uniqueness determine a member
/// sequence completely: the ground of the pipeline's reproducibility.
pub proof fn lemma_sorted_members_unique(x: Seq<MemberView>, y: Seq<MemberView>)
    requires
        sorted_by(x, member_order()),
        sorted_by(y, member_order()),
        x.to_multiset() == y.to_multiset(),
        paths_unique(x),
    ensures
        x == y,
    decreases x.len(),
{
    broadcast use vstd::seq_lib::group_to_multiset_ensures;
    broadcast use vstd::multiset::group_multiset_axioms;

    if x.len() == 0 {
        assert(y.to_multiset().len() == 0);
        assert(x =~= y);
    } else {
        vstd::seq_lib::to_multiset_len(x);
        vstd::seq_lib::to_multiset_len(y);
        assert(y.to_multiset().len() == x.to_multiset().len());
        assert(y.len() > 0);
        assert(x.to_multiset().count(y[0]) > 0) by {
            assert(y.contains(y[0]));
        }
        assert(x.contains(y[0]));
        let j = choose|j: int| 0 <= j < x.len() && x[j] == y[0];
        assert(y.to_multiset().count(x[0]) > 0) by {
            assert(x.contains(x[0]));
        }
        assert(y.contains(x[0]));
        let i = choose|i: int| 0 <= i < y.len() && y[i] == x[0];
        if j > 0 {
            assert(member_order()(x[0], x[j]));
        } else {
            lemma_rev_le_total(x[0].path, x[0].path);
        }
        assert(rev_le(x[0].path, y[0].path));
        if i > 0 {
            assert(member_order()(y[0], y[i]));
        } else {
            lemma_rev_le_total(y[0].path, y[0].path);
        }
        assert(rev_le(y[0].path, x[0].path));
        lemma_rev_le_antisymmetric(x[0].path, y[0].path);
        assert(x[j].path == x[0].path);
        assert(j == 0);
        assert(x[0] == y[0]);
        assert(x.drop_first() =~= x.remove(0));
        assert(y.drop_first() =~= y.remove(0));
        assert(x.drop_first().to_multiset() == x.to_multiset().remove(x[0]));
        assert(y.drop_first().to_multiset() == y.to_multiset().remove(y[0]));
        assert(sorted_by(x.drop_first(), member_order())) by {
            assert forall|a: int, b: int| 0 <= a < b < x.drop_first().len() implies #[trigger] member_order()(
                x.drop_first()[a],
                x.drop_first()[b],
            ) by {
                assert(member_order()(x[a + 1], x[b + 1]));
            }
        }
        assert(sorted_by(y.drop_first(), member_order())) by {
            assert forall|a: int, b: int| 0 <= a < b < y.drop_first().len() implies #[trigger] member_order()(
                y.drop_first()[a],
                y.drop_first()[b],
            ) by {
                assert(member_order()(y[a + 1], y[b + 1]));
            }
        }
        assert(paths_unique(x.drop_first())) by {
            assert forall|a: int, b: int|
                0 <= a < b < x.drop_first().len() implies x.drop_first()[a].path != x.drop_first()[b].path by {
                assert(x[a + 1].path != x[b + 1].path);
            }
        }
        lemma_sorted_members_unique(x.drop_first(), y.drop_first());
        assert(x.len() == y.len());
        assert forall|k: int| 0 <= k < x.len() implies x[k] == y[k] by {
            if k > 0 {
                assert(x.drop_first()[k - 1] == y.drop_first()[k - 1]);
            }
        }
        assert(x =~= y);
    }
}

/// Do the members at `i` and `i + 1` carry different paths?
spec fn paths_differ_at(s: Seq<MemberView>, i: int) -> bool {
    s[i].path != s[i + 1].path
}

/// In a sorted sequence, distinct paths at every adjacent pair mean
/// distinct paths everywhere: equal paths would have to sit next to each
/// other.
proof fn lemma_adjacent_distinct_unique(s: Seq<MemberView>)
    requires
        sorted_by(s, member_order()),
        forall|i: int| 0 <= i < s.len() - 1 ==> #[trigger] paths_differ_at(s, i),
    ensures
        paths_unique(s),
{
    assert forall|i: int, j: int| 0 <= i < j < s.len() implies s[i].path != s[j].path by {
        if s[i].path == s[j].path {
            assert(paths_differ_at(s, i));
            assert(member_order()(s[i], s[i + 1]));
            if i + 1 < j {
                assert(member_order()(s[i + 1], s[j]));
            } else {
                lemma_rev_le_total(s[i + 1].path, s[i + 1].path);
            }
            assert(rev_le(s[i + 1].path, s[i].path));
            lemma_rev_le_antisymmetric(s[i].path, s[i + 1].path);
        }
    }
}

/// The member as archived: on a platform without native executable bits a
/// regular file's mode passes the executable heuristic, everything else is
/// untouched.
pub open spec fn adjust(m: MemberView, native_exec_bits: bool) -> MemberView {
    if m.kind == MemberKind::RegularFile && !native_exec_bits {
        MemberView { mode: synth_exec_mode(m.path, m.mode), ..m }
    } else {
        m
    }
}

/// The collected members after the executable heuristic.
pub open spec fn adjusted_views(es: Seq<ArchiveMember>, native_exec_bits: bool) -> Seq<MemberView> {
    member_views(es).map_values(|m: MemberView| adjust(m, native_exec_bits))
}

/// Is the member a directory?
pub open spec fn dir_pred() -> spec_fn(MemberView) -> bool {
    |m: MemberView| m.kind == MemberKind::Directory
}

/// Is the member not a directory?
pub open spec fn file_pred() -> spec_fn(MemberView) -> bool {
    |m: MemberView| m.kind != MemberKind::Directory
}

/// The shape of a planned member list over the adjusted collection `base`:
/// first every directory in collection order, then the remaining members
/// sorted by path, nothing else.
pub open spec fn plan_shape(p: Seq<MemberView>, k: int, base: Seq<MemberView>) -> bool {
    &&& 0 <= k <= p.len()
    &&& p.take(k) == base.filter(dir_pred())
    &&& sorted_by(p.skip(k), member_order())
    &&& p.skip(k).to_multiset() == base.filter(file_pred()).to_multiset()
}

/// Determinism: two plans over the same collected members are equal, and so
/// are their archive streams.  The distinctness of the planned paths, the
/// one hypothesis, is exactly what `plan_members` ensures of every plan it
/// returns.
pub proof fn lemma_plan_deterministic(
    x: Seq<MemberView>,
    k1: int,
    y: Seq<MemberView>,
    k2: int,
    base: Seq<MemberView>,
)
    requires
        plan_shape(x, k1, base),
        plan_shape(y, k2, base),
        paths_unique(x.skip(k1)),
    ensures
        x == y,
        archive_bytes(x) == archive_bytes(y),
{
    assert(x.take(k1).len() == k1);
    assert(y.take(k2).len() == k2);
    assert(k1 == k2);
    lemma_sorted_members_unique(x.skip(k1), y.skip(k2));
    assert(x =~= x.take(k1) + x.skip(k1));
    assert(y =~= y.take(k2) + y.skip(k2));
    assert(x =~= y);
}

/// A valid member path: nonempty, within the long-name record's size field,
/// NUL-free, relative, and free of parent steps.
pub open spec fn path_ok(m: MemberView) -> bool {
    &&& 1 <= m.path.len()
    &&& m.path.len() + 1 < pow8(11)
    &&& no_nul(m.path)
    &&& m.path[0] != 47
    &&& no_dotdot(m.path)
}

/// Contents and link target agree with the member's kind, and a symlink's
/// target fits its field.
pub open spec fn link_ok(m: MemberView) -> bool {
    match m.kind {
        MemberKind::Directory => m.content.len() == 0 && m.link_target.len() == 0,
        MemberKind::RegularFile => m.link_target.len() == 0,
        MemberKind::Symlink => {
            &&& m.content.len() == 0
            &&& 1 <= m.link_target.len() <= 100
            &&& no_nul(m.link_target)
        },
    }
}

/// The metadata fits its octal header fields.
pub open spec fn meta_ok(m: MemberView) -> bool {
    &&& m.mode < pow8(7)
    &&& m.uid < pow8(7)
    &&& m.gid < pow8(7)
    &&& m.mtime < pow8(11)
    &&& (m.kind == MemberKind::RegularFile ==> m.content.len() < pow8(11))
}

/// Well-formedness is exactly these three conditions together.
pub proof fn lemma_wf_parts(m: MemberView)
    ensures
        m.wf() == (path_ok(m) && link_ok(m) && meta_ok(m)),
{
}

/// The position of the first member the header format cannot hold.
pub open spec fn first_bad(ms: Seq<MemberView>) -> int
    decreases ms.len(),
{
    if ms.len() == 0 {
        0
    } else if !ms[0].wf() {
        0
    } else {
        1 + first_bad(ms.drop_first())
    }
}

proof fn lemma_first_bad(ms: Seq<MemberView>, i: int)
    requires
        0 <= i < ms.len(),
        forall|j: int| 0 <= j < i ==> (#[trigger] ms[j]).wf(),
        !ms[i].wf(),
    ensures
        first_bad(ms) == i,
    decreases ms.len(),
{
    if i > 0 {
        lemma_first_bad(ms.drop_first(), i - 1);
    }
}

/// Is the path free of parent-step components?
fn has_no_dotdot(p: &Vec<u8>) -> (r: bool)
    ensures
        r == no_dotdot(p@),
{
    let toks = split_bytes(p, 47);
    let tcount = toks.len();
    let mut i: usize = 0;
    while i < tcount
        invariant
            i <= toks@.len(),
            tcount == toks@.len(),
            views_of(toks@) == split_spec(p@, 47),
            forall|j: int| 0 <= j < i ==> #[trigger] split_spec(p@, 47)[j] != seq![46u8, 46u8],
        decreases toks@.len() - i,
    {
        let t = &toks[i];
        proof {
            assert(views_of(toks@)[i as int] == toks@[i as int]@);
            if t@.len() == 2 {
                assert(t@ =~= seq![t@[0], t@[1]]);
            }
        }
        if t.len() == 2 && t[0] == 46 && t[1] == 46 {
            proof {
                assert(split_spec(p@, 47)[i as int] == seq![46u8, 46u8]);
            }
            return false;
        }
        i = i + 1;
    }
    true
}

/// Is the byte vector free of NUL bytes?
fn has_no_nul(v: &Vec<u8>) -> (r: bool)
    ensures
        r == no_nul(v@),
{
    let mut i: usize = 0;
    while i < v.len()
        invariant
            i <= v@.len(),
            forall|j: int| 0 <= j < i ==> v@[j] != 0,
        decreases v@.len() - i,
    {
        if v[i] == 0 {
            return false;
        }
        i = i + 1;
    }
    true
}

/// Checks that a member can be archived.  Accepts exactly the well-formed
/// members; the error names the failing part, carrying the member's path.
pub fn validate_member(m: &ArchiveMember) -> (r: Result<(), Error>)
    ensures
        r matches Ok(u) ==> m@.wf(),
        r matches Err(e) ==> !m@.wf() && match e {
            Error::InvalidPath(p) => !path_ok(m@) && p@ == m@.path,
            Error::InvalidLinkTarget(p) => path_ok(m@) && !link_ok(m@) && p@ == m@.path,
            Error::FieldTooLarge(p) => path_ok(m@) && link_ok(m@) && !meta_ok(m@) && p@ == m@.path,
            _ => false,
        },
{
    proof {
        lemma_wf_parts(m@);
        lemma_pow8_values();
    }
    if m.path.len() < 1 || (m.path.len() as u64) > 8589934590 || !has_no_nul(&m.path)
        || m.path[0] == 47 || !has_no_dotdot(&m.path) {
        return Err(Error::InvalidPath(clone_bytes(&m.path)));
    }
    let links_fine = match m.kind {
        MemberKind::Directory => m.content.len() == 0 && m.link_target.len() == 0,
        MemberKind::RegularFile => m.link_target.len() == 0,
        MemberKind::Symlink => m.content.len() == 0 && m.link_target.len() >= 1
            && m.link_target.len() <= 100 && has_no_nul(&m.link_target),
    };
    if !links_fine {
        return Err(Error::InvalidLinkTarget(clone_bytes(&m.path)));
    }
    let content_fine = match m.kind {
        MemberKind::RegularFile => (m.content.len() as u64) < 8589934592,
        _ => true,
    };
    if m.mode >= 2097152 || m.uid >= 2097152 || m.gid >= 2097152 || m.mtime >= 8589934592
        || !content_fine {
        return Err(Error::FieldTooLarge(clone_bytes(&m.path)));
    }
    Ok(())
}

/// Plans the archive's member list: applies the executable heuristic,
/// checks every member, and orders them — directories first in collection
/// order, then the files and symlinks in reverse-byte path order, their
/// paths pairwise distinct.  Succeeds exactly when every adjusted member is
/// well-formed and no two non-directory members share a path; the error
/// names the first member that cannot be archived, or a shared path.  The
/// uniqueness of the planned paths is what makes the plan — and with it the
/// archive stream — the unique one for the collection.
pub fn plan_members(entries: &Vec<ArchiveMember>, native_exec_bits: bool) -> (r: Result<
    Vec<ArchiveMember>,
    Error,
>)
    ensures
        r matches Ok(plan) ==> {
            let base = adjusted_views(entries@, native_exec_bits);
            &&& forall|i: int|
                0 <= i < base.len() ==> (#[trigger] base[i]).wf()
            &&& forall|i: int|
                0 <= i < plan@.len() ==> (#[trigger] plan@[i])@.wf()
            &&& exists|k: int|
                plan_shape(member_views(plan@), k, base) && paths_unique(
                    member_views(plan@).skip(k),
                )
        },
        r matches Err(e) ==> {
            let base = adjusted_views(entries@, native_exec_bits);
            let fb = first_bad(base);
            match e {
                Error::InvalidPath(p) => 0 <= fb < base.len() && !base[fb].wf() && !path_ok(
                    base[fb],
                ) && p@ == base[fb].path,
                Error::InvalidLinkTarget(p) => 0 <= fb < base.len() && !base[fb].wf() && path_ok(
                    base[fb],
                ) && !link_ok(base[fb]) && p@ == base[fb].path,
                Error::FieldTooLarge(p) => 0 <= fb < base.len() && !base[fb].wf() && path_ok(
                    base[fb],
                ) && link_ok(base[fb]) && !meta_ok(base[fb]) && p@ == base[fb].path,
                Error::DuplicatePath(p) => forall|y: Seq<MemberView>|
                    sorted_by(y, member_order()) && y.to_multiset() == base.filter(
                        file_pred(),
                    ).to_multiset() ==> !paths_unique(y),
                _ => false,
            }
        },
{
    let ghost base = adjusted_views(entries@, native_exec_bits);
    proof {
        assert(base.len() == entries@.len());
    }
    let mut dirs: Vec<ArchiveMember> = Vec::new();
    let mut files: Vec<ArchiveMember> = Vec::new();
    let mut k: usize = 0;
    proof {
        reveal(Seq::filter);
        assert(base.take(0int) =~= Seq::<MemberView>::empty());
        assert(member_views(dirs@) =~~= base.take(0int).filter(dir_pred()));
        assert(member_views(files@) =~~= base.take(0int).filter(file_pred()));
    }
    while k < entries.len()
        invariant
            k <= entries@.len(),
            base == adjusted_views(entries@, native_exec_bits),
            base.len() == entries@.len(),
            forall|j: int| 0 <= j < k ==> (#[trigger] base[j]).wf(),
            member_views(dirs@) == base.take(k as int).filter(dir_pred()),
            member_views(files@) == base.take(k as int).filter(file_pred()),
            forall|j: int| 0 <= j < dirs@.len() ==> (#[trigger] dirs@[j])@.wf(),
            forall|j: int| 0 <= j < files@.len() ==> (#[trigger] files@[j])@.wf(),
        decreases entries@.len() - k,
    {
        let e0 = &entries[k];
        let newmode = match e0.kind {
            MemberKind::RegularFile => apply_exec_heuristic(&e0.path, e0.mode, native_exec_bits),
            _ => e0.mode,
        };
        let m = ArchiveMember {
            path: clone_bytes(&e0.path),
            kind: e0.kind,
            mode: newmode,
            uid: e0.uid,
            gid: e0.gid,
            mtime: e0.mtime,
            link_target: clone_bytes(&e0.link_target),
            content: clone_bytes(&e0.content),
        };
        proof {
            assert(member_views(entries@)[k as int] == entries@[k as int]@);
            assert(base[k as int] == adjust(entries@[k as int]@, native_exec_bits));
            assert(m@ =~= base[k as int]);
        }
        match validate_member(&m) {
            Err(e) => {
                proof {
                    lemma_first_bad(base, k as int);
                }
                return Err(e);
            }
            Ok(()) => {}
        }
        let ghost old_dirs = member_views(dirs@);
        let ghost old_files = member_views(files@);
        let is_dir = match m.kind {
            MemberKind::Directory => true,
            _ => false,
        };
        if is_dir {
            dirs.push(m);
        } else {
            files.push(m);
        }
        proof {
            reveal(Seq::filter);
            assert(base.take(k as int + 1).drop_last() =~= base.take(k as int));
            assert(base.take(k as int + 1).last() == base[k as int]);
            if is_dir {
                assert(member_views(dirs@) =~~= old_dirs.push(base[k as int]));
                assert(member_views(dirs@) =~~= base.take(k as int + 1).filter(dir_pred()));
                assert(member_views(files@) =~~= base.take(k as int + 1).filter(file_pred()));
            } else {
                assert(member_views(files@) =~~= old_files.push(base[k as int]));
                assert(member_views(dirs@) =~~= base.take(k as int + 1).filter(dir_pred()));
                assert(member_views(files@) =~~= base.take(k as int + 1).filter(file_pred()));
            }
        }
        k = k + 1;
    }
    proof {
        assert(base.take(base.len() as int) =~= base);
    }
    let ghost file_views = member_views(files@);
    proof {
        assert(file_views == base.filter(file_pred()));
    }
    let dcount = dirs.len();
    let mut sorted = sort_members(files);
    let ghost sv = member_views(sorted@);
    proof {
        broadcast use vstd::seq_lib::group_to_multiset_ensures;
        assert forall|j: int| 0 <= j < sorted@.len() implies (#[trigger] sorted@[j])@.wf() by {
            assert(sv[j] == sorted@[j]@);
            assert(sv.contains(sv[j]));
            assert(sv.to_multiset().count(sv[j]) > 0);
            assert(file_views.to_multiset().count(sv[j]) > 0);
            assert(file_views.contains(sv[j]));
            let w = choose|w: int| 0 <= w < file_views.len() && file_views[w] == sv[j];
            assert(files@[w]@.wf());
        }
    }
    let scount = sorted.len();
    let mut q: usize = 0;
    while scount > 0 && q < scount - 1
        invariant
            q <= scount,
            scount == sorted@.len(),
            sv == member_views(sorted@),
            sorted_by(sv, member_order()),
            sv.to_multiset() == base.filter(file_pred()).to_multiset(),
            base == adjusted_views(entries@, native_exec_bits),
            forall|j: int| 0 <= j < q ==> #[trigger] paths_differ_at(sv, j),
        decreases scount - q,
    {
        proof {
            assert(sv[q as int] == sorted@[q as int]@);
            assert(sv[q as int + 1] == sorted@[q as int + 1]@);
        }
        if bytes_eq(&sorted[q].path, &sorted[q + 1].path) {
            proof {
                assert(sv[q as int].path == sv[q as int + 1].path);
                assert forall|y: Seq<MemberView>|
                    sorted_by(y, member_order()) && y.to_multiset() == base.filter(
                        file_pred(),
                    ).to_multiset() implies !paths_unique(y) by {
                    if paths_unique(y) {
                        lemma_sorted_members_unique(y, sv);
                        assert(sv[q as int].path != sv[q as int + 1].path);
                    }
                }
            }
            return Err(Error::DuplicatePath(clone_bytes(&sorted[q].path)));
        }
        proof {
            assert(paths_differ_at(sv, q as int));
        }
        q = q + 1;
    }
    proof {
        assert forall|j: int| 0 <= j < sv.len() - 1 implies #[trigger] paths_differ_at(sv, j) by {}
        lemma_adjacent_distinct_unique(sv);
    }
    let mut plan = dirs;
    let ghost dir_views = member_views(plan@);
    plan.append(&mut sorted);
    proof {
        assert(member_views(plan@) =~~= dir_views + sv);
        let pv = member_views(plan@);
        let k0 = dcount as int;
        assert(pv.take(k0) =~~= dir_views);
        assert(pv.skip(k0) =~~= sv);
        assert(plan_shape(pv, k0, base));
        assert(paths_unique(pv.skip(k0)));
    }
    Ok(plan)
}

/// One produced output: the file name it is meant for, and its bytes.
#[derive(Debug)]
pub struct ArchiveOutput {
    /// `<prefix>.tar.<ext>`.
    pub name: Vec<u8>,
    /// The compressed archive stream.
    pub bytes: Vec<u8>,
}

/// Builds the archive stream for the planned members once and compresses it
/// under every requested format.  Every output encodes the same stream, the
/// archive stream of the plan; the name of each is `<prefix>.tar.<ext>`.
/// Gzip cannot fail, so a failed run means some other format's compressor
/// reported one: a run that asks only for gzip is owed success.
pub fn produce_archives(
    prefix: &Vec<u8>,
    plan: &Vec<ArchiveMember>,
    formats: &CompressionFormats,
) -> (r: Result<Vec<ArchiveOutput>, Error>)
    requires
        forall|i: int| 0 <= i < plan@.len() ==> (#[trigger] plan@[i])@.wf(),
    ensures
        r matches Ok(outs) ==> {
            &&& outs@.len() == formats@.len()
            &&& forall|i: int|
                0 <= i < outs@.len() ==> (#[trigger] outs@[i]).name@ == output_name_spec(
                    prefix@,
                    formats@[i],
                )
            &&& forall|i: int|
                0 <= i < outs@.len() ==> encodes(
                    formats@[i],
                    archive_bytes(member_views(plan@)),
                    (#[trigger] outs@[i]).bytes@,
                )
        },
        r matches Err(e) ==> e matches Error::Compression(_) && (exists|i: int|
            0 <= i < formats@.len() && #[trigger] formats@[i] != CompressionFormat::Gz),
{
    let tar = build_archive(plan);
    let mut outs: Vec<ArchiveOutput> = Vec::new();
    let mut i: usize = 0;
    while i < formats.len()
        invariant
            i <= formats@.len(),
            outs@.len() == i,
            tar@ == archive_bytes(member_views(plan@)),
            forall|j: int|
                0 <= j < i ==> (#[trigger] outs@[j]).name@ == output_name_spec(
                    prefix@,
                    formats@[j],
                ),
            forall|j: int|
                0 <= j < i ==> encodes(
                    formats@[j],
                    archive_bytes(member_views(plan@)),
                    (#[trigger] outs@[j]).bytes@,
                ),
        decreases formats@.len() - i,
    {
        let fmt = formats.get(i);
        match fmt.encode(&tar) {
            Ok(bytes) => {
                outs.push(ArchiveOutput { name: output_name(prefix, fmt), bytes });
            }
            Err(e) => {
                return Err(e);
            }
        }
        i = i + 1;
    }
    Ok(outs)
}

/// Decodes every output of one run back to the stream `t` it was produced
/// from: whatever the format, the decoded bytes are identical.
pub fn decode_all_outputs(
    outs: &Vec<ArchiveOutput>,
    formats: &CompressionFormats,
    Ghost(t): Ghost<Seq<u8>>,
) -> (r: Vec<Vec<u8>>)
    requires
        outs@.len() == formats@.len(),
        forall|i: int| 0 <= i < outs@.len() ==> encodes(formats@[i], t, (#[trigger] outs@[i]).bytes@),
    ensures
        r@.len() == outs@.len(),
        forall|i: int| 0 <= i < r@.len() ==> (#[trigger] r@[i])@ == t,
{
    let mut r: Vec<Vec<u8>> = Vec::new();
    let mut i: usize = 0;
    while i < outs.len()
        invariant
            i <= outs@.len(),
            outs@.len() == formats@.len(),
            forall|j: int|
                0 <= j < outs@.len() ==> encodes(formats@[j], t, (#[trigger] outs@[j]).bytes@),
            r@.len() == i,
            forall|j: int| 0 <= j < i ==> (#[trigger] r@[j])@ == t,
        decreases outs@.len() - i,
    {
        match formats.get(i).decode(&outs[i].bytes) {
            Ok(v) => {
                r.push(v);
            }
            Err(_) => {
                proof {
                    assert(encodes(formats@[i as int], t, outs@[i as int].bytes@));
                    assert(false);
                }
                return vstd::pervasive::unreached();
            }
        }
        i = i + 1;
    }
    r
}

/// Cross-format equivalence, executed: produces every requested format from
/// one plan and decodes each output back.  All decoded streams are the same
/// archive stream.
pub fn roundtrip_archives(
    prefix: &Vec<u8>,
    plan: &Vec<ArchiveMember>,
    formats: &CompressionFormats,
) -> (r: Result<Vec<Vec<u8>>, Error>)
    requires
        forall|i: int| 0 <= i < plan@.len() ==> (#[trigger] plan@[i])@.wf(),
    ensures
        r matches Ok(streams) ==> {
            &&& streams@.len() == formats@.len()
            &&& forall|i: int|
                0 <= i < streams@.len() ==> (#[trigger] streams@[i])@ == archive_bytes(
                    member_views(plan@),
                )
        },
        r matches Err(e) ==> e matches Error::Compression(_) && (exists|i: int|
            0 <= i < formats@.len() && #[trigger] formats@[i] != CompressionFormat::Gz),
{
    match produce_archives(prefix, plan, formats) {
        Ok(outs) => Ok(
            decode_all_outputs(&outs, formats, Ghost(archive_bytes(member_views(plan@)))),
        ),
        Err(e) => Err(e),
    }
}

/// Round trip, end to end: produces every requested format, decodes each
/// output, and reads the members back out of the decoded stream.  Whatever
/// the format, the members recovered are exactly the planned members.
pub fn read_back_archives(
    prefix: &Vec<u8>,
    plan: &Vec<ArchiveMember>,
    formats: &CompressionFormats,
) -> (r: Result<Vec<Vec<ArchiveMember>>, Error>)
    requires
        forall|i: int| 0 <= i < plan@.len() ==> (#[trigger] plan@[i])@.wf(),
    ensures
        r matches Ok(recovered) ==> {
            &&& recovered@.len() == formats@.len()
            &&& forall|i: int|
                0 <= i < recovered@.len() ==> member_views(#[trigger] recovered@[i]@)
                    == member_views(plan@)
        },
        r matches Err(e) ==> e matches Error::Compression(_) && (exists|i: int|
            0 <= i < formats@.len() && #[trigger] formats@[i] != CompressionFormat::Gz),
{
    let streams = match roundtrip_archives(prefix, plan, formats) {
        Ok(streams) => streams,
        Err(e) => {
            return Err(e);
        },
    };
    proof {
        lemma_archive_roundtrip(member_views(plan@));
    }
    let mut recovered: Vec<Vec<ArchiveMember>> = Vec::new();
    let mut i: usize = 0;
    while i < streams.len()
        invariant
            i <= streams@.len(),
            streams@.len() == formats@.len(),
            forall|j: int|
                0 <= j < streams@.len() ==> (#[trigger] streams@[j])@ == archive_bytes(
                    member_views(plan@),
                ),
            crate::reader::parse_archive_spec(archive_bytes(member_views(plan@))) == Some(
                member_views(plan@),
            ),
            recovered@.len() == i,
            forall|j: int|
                0 <= j < i ==> member_views(#[trigger] recovered@[j]@) == member_views(plan@),
        decreases streams@.len() - i,
    {
        match parse_archive(&streams[i]) {
            Some(members) => {
                recovered.push(members);
            }
            None => {
                proof {
                    assert(false);
                }
                return vstd::pervasive::unreached();
            }
        }
        i = i + 1;
    }
    Ok(recovered)
}

} // verus!
