//! Byte-string utilities shared by the packaging components: ASCII
//! whitespace trimming, separator splitting, and affix tests, each with an
//! exact specification.

use vstd::prelude::*;

verus! {

/// ASCII whitespace, the bytes trimmed from configuration tokens.
pub open spec fn is_space(b: u8) -> bool {
    b == 32 || (9 <= b && b <= 13)
}

/// Leading whitespace removed.
pub open spec fn trim_front_spec(s: Seq<u8>) -> Seq<u8>
    decreases s.len(),
{
    if s.len() > 0 && is_space(s[0]) {
        trim_front_spec(s.drop_first())
    } else {
        s
    }
}

/// Trailing whitespace removed.
pub open spec fn trim_back_spec(s: Seq<u8>) -> Seq<u8>
    decreases s.len(),
{
    if s.len() > 0 && is_space(s.last()) {
        trim_back_spec(s.drop_last())
    } else {
        s
    }
}

/// Whitespace removed from both ends.
pub open spec fn trim_spec(s: Seq<u8>) -> Seq<u8> {
    trim_front_spec(trim_back_spec(s))
}

/// Splitting at every occurrence of `sep`; always yields at least one
/// token, and empty tokens are kept.
pub open spec fn split_spec(s: Seq<u8>, sep: u8) -> Seq<Seq<u8>>
    decreases s.len(),
{
    if s.len() == 0 {
        seq![Seq::<u8>::empty()]
    } else if s[0] == sep {
        seq![Seq::<u8>::empty()] + split_spec(s.drop_first(), sep)
    } else {
        let rest = split_spec(s.drop_first(), sep);
        seq![seq![s[0]] + rest[0]] + rest.drop_first()
    }
}

/// The first token extended at the front by `p`.
pub open spec fn prepend_first(p: Seq<u8>, toks: Seq<Seq<u8>>) -> Seq<Seq<u8>>
    recommends
        toks.len() >= 1,
{
    seq![p + toks[0]] + toks.drop_first()
}

pub proof fn lemma_split_nonempty(s: Seq<u8>, sep: u8)
    ensures
        split_spec(s, sep).len() >= 1,
    decreases s.len(),
{
    if s.len() > 0 {
        lemma_split_nonempty(s.drop_first(), sep);
    }
}

/// A split yields one token per separator plus one, so never more tokens
/// than the input length plus one.
pub proof fn lemma_split_count(s: Seq<u8>, sep: u8)
    ensures
        split_spec(s, sep).len() <= s.len() + 1,
    decreases s.len(),
{
    if s.len() > 0 {
        lemma_split_count(s.drop_first(), sep);
    }
}

/// A token free of the separator splits into itself alone.
pub proof fn lemma_split_no_sep(t: Seq<u8>, sep: u8)
    requires
        forall|i: int| 0 <= i < t.len() ==> t[i] != sep,
    ensures
        split_spec(t, sep) == seq![t],
    decreases t.len(),
{
    if t.len() == 0 {
        assert(split_spec(t, sep) =~~= seq![t]);
    } else {
        lemma_split_no_sep(t.drop_first(), sep);
        lemma_split_nonempty(t.drop_first(), sep);
        assert(seq![t[0]] + t.drop_first() =~= t);
        assert(split_spec(t, sep) =~~= seq![t]);
    }
}

pub fn is_space_byte(b: u8) -> (r: bool)
    ensures
        r == is_space(b),
{
    b == 32 || (9 <= b && b <= 13)
}

/// Copies `s[start..end]` into a fresh vector.
pub fn bytes_range(s: &Vec<u8>, start: usize, end: usize) -> (r: Vec<u8>)
    requires
        start <= end <= s@.len(),
    ensures
        r@ == s@.subrange(start as int, end as int),
{
    let mut r: Vec<u8> = Vec::new();
    assert(r@ =~= s@.subrange(start as int, start as int));
    let mut i: usize = start;
    while i < end
        invariant
            start <= i <= end <= s@.len(),
            r@ == s@.subrange(start as int, i as int),
        decreases end - i,
    {
        r.push(s[i]);
        assert(s@.subrange(start as int, i as int + 1)
            =~= s@.subrange(start as int, i as int).push(s@[i as int]));
        i = i + 1;
    }
    r
}

/// Copies a byte vector.
pub fn clone_bytes(v: &Vec<u8>) -> (r: Vec<u8>)
    ensures
        r@ == v@,
{
    let mut r: Vec<u8> = Vec::new();
    r.extend_from_slice(v.as_slice());
    assert(r@ =~= v@);
    r
}

/// Removes ASCII whitespace from both ends of `s`.
pub fn trim(s: &Vec<u8>) -> (r: Vec<u8>)
    ensures
        r@ == trim_spec(s@),
{
    let mut end: usize = s.len();
    assert(s@.take(end as int) =~= s@);
    while end > 0 && is_space_byte(s[end - 1])
        invariant
            end <= s@.len(),
            trim_back_spec(s@) == trim_back_spec(s@.take(end as int)),
        decreases end,
    {
        assert(s@.take(end as int).drop_last() =~= s@.take(end as int - 1));
        end = end - 1;
    }
    assert(s@.take(end as int) == trim_back_spec(s@));
    let ghost back = trim_back_spec(s@);
    let mut start: usize = 0;
    assert(s@.take(end as int) =~= s@.subrange(0int, end as int));
    while start < end && is_space_byte(s[start])
        invariant
            start <= end <= s@.len(),
            back == trim_back_spec(s@),
            trim_front_spec(back) == trim_front_spec(s@.subrange(start as int, end as int)),
        decreases end - start,
    {
        assert(s@.subrange(start as int, end as int).drop_first()
            =~= s@.subrange(start as int + 1, end as int));
        start = start + 1;
    }
    assert(trim_front_spec(back) == s@.subrange(start as int, end as int));
    bytes_range(s, start, end)
}

/// The element views of a sequence of byte vectors.
pub open spec fn views_of(vs: Seq<Vec<u8>>) -> Seq<Seq<u8>> {
    Seq::new(vs.len(), |i: int| vs[i]@)
}

/// Splits `s` at every occurrence of `sep`, keeping empty tokens.
pub fn split_bytes(s: &Vec<u8>, sep: u8) -> (r: Vec<Vec<u8>>)
    ensures
        views_of(r@) == split_spec(s@, sep),
{
    let mut out: Vec<Vec<u8>> = Vec::new();
    let mut cur: Vec<u8> = Vec::new();
    let mut i: usize = 0;
    proof {
        lemma_split_nonempty(s@, sep);
        assert(s@.skip(0int) =~= s@);
        assert(views_of(out@) =~~= Seq::<Seq<u8>>::empty());
        assert(prepend_first(cur@, split_spec(s@, sep)) =~~= split_spec(s@, sep));
        assert(views_of(out@) + prepend_first(cur@, split_spec(s@.skip(0int), sep))
            =~~= split_spec(s@, sep));
    }
    while i < s.len()
        invariant
            i <= s@.len(),
            split_spec(s@, sep) == views_of(out@) + prepend_first(
                cur@,
                split_spec(s@.skip(i as int), sep),
            ),
        decreases s@.len() - i,
    {
        proof {
            lemma_split_nonempty(s@.skip(i as int + 1), sep);
            assert(s@.skip(i as int).drop_first() =~= s@.skip(i as int + 1));
            assert(s@.skip(i as int)[0] == s@[i as int]);
        }
        let ghost rest = split_spec(s@.skip(i as int + 1), sep);
        if s[i] == sep {
            let ghost old_out = out@;
            let ghost old_cur = cur@;
            proof {
                assert(split_spec(s@.skip(i as int), sep) == seq![Seq::<u8>::empty()] + rest);
                assert(prepend_first(old_cur, seq![Seq::<u8>::empty()] + rest)
                    =~~= seq![old_cur] + rest);
            }
            out.push(cur);
            cur = Vec::new();
            proof {
                assert(views_of(out@) =~~= views_of(old_out).push(old_cur));
                assert(prepend_first(cur@, rest) =~~= rest);
                assert(views_of(old_out) + (seq![old_cur] + rest)
                    =~~= views_of(out@) + prepend_first(cur@, rest));
            }
        } else {
            let ghost old_cur = cur@;
            proof {
                assert(split_spec(s@.skip(i as int), sep)
                    == seq![seq![s@[i as int]] + rest[0]] + rest.drop_first());
                assert(prepend_first(old_cur, seq![seq![s@[i as int]] + rest[0]] + rest.drop_first())
                    =~~= seq![old_cur + (seq![s@[i as int]] + rest[0])] + rest.drop_first());
            }
            cur.push(s[i]);
            proof {
                assert(seq![old_cur + (seq![s@[i as int]] + rest[0])] + rest.drop_first()
                    =~~= prepend_first(cur@, rest));
            }
        }
        i = i + 1;
    }
    proof {
        assert(s@.skip(i as int) =~= Seq::<u8>::empty());
        assert(prepend_first(cur@, split_spec(s@.skip(i as int), sep)) =~~= seq![cur@]);
    }
    let ghost old_out = out@;
    let ghost last_cur = cur@;
    out.push(cur);
    proof {
        assert(views_of(out@) =~~= views_of(old_out).push(last_cur));
        assert(views_of(old_out) + seq![last_cur] =~~= views_of(out@));
    }
    out
}

/// Compares two byte vectors for equality of their contents.
pub fn bytes_eq(a: &Vec<u8>, b: &Vec<u8>) -> (r: bool)
    ensures
        r == (a@ == b@),
{
    if a.len() != b.len() {
        return false;
    }
    let mut i: usize = 0;
    while i < a.len()
        invariant
            i <= a@.len(),
            a@.len() == b@.len(),
            forall|j: int| 0 <= j < i ==> a@[j] == b@[j],
        decreases a@.len() - i,
    {
        if a[i] != b[i] {
            return false;
        }
        i = i + 1;
    }
    assert(a@ =~= b@);
    true
}

/// The items each terminated by a newline.
pub open spec fn lines_spec(items: Seq<Seq<u8>>) -> Seq<u8>
    decreases items.len(),
{
    if items.len() == 0 {
        Seq::<u8>::empty()
    } else {
        lines_spec(items.drop_last()) + items.last() + seq![10u8]
    }
}

/// Joins the items, a newline after each.
pub fn join_lines(items: &Vec<Vec<u8>>) -> (r: Vec<u8>)
    ensures
        r@ == lines_spec(views_of(items@)),
{
    let mut r: Vec<u8> = Vec::new();
    let mut i: usize = 0;
    let ghost vs = views_of(items@);
    proof {
        assert(vs.take(0int) =~~= Seq::<Seq<u8>>::empty());
        assert(r@ =~= lines_spec(vs.take(0int)));
    }
    while i < items.len()
        invariant
            i <= items@.len(),
            vs == views_of(items@),
            r@ == lines_spec(vs.take(i as int)),
        decreases items@.len() - i,
    {
        r.extend_from_slice(items[i].as_slice());
        r.push(10u8);
        proof {
            assert(vs.take(i as int + 1).drop_last() =~~= vs.take(i as int));
            assert(vs.take(i as int + 1).last() == items@[i as int]@);
            assert(r@ =~= lines_spec(vs.take(i as int)) + items@[i as int]@ + seq![10u8]);
        }
        i = i + 1;
    }
    proof {
        assert(vs.take(items@.len() as int) =~~= vs);
    }
    r
}

/// Does `s` start with `prefix`?
pub open spec fn starts_with_spec(s: Seq<u8>, prefix: Seq<u8>) -> bool {
    prefix.len() <= s.len() && s.subrange(0, prefix.len() as int) == prefix
}

pub fn starts_with(s: &Vec<u8>, prefix: &Vec<u8>) -> (r: bool)
    ensures
        r == starts_with_spec(s@, prefix@),
{
    if prefix.len() > s.len() {
        return false;
    }
    let mut i: usize = 0;
    while i < prefix.len()
        invariant
            i <= prefix@.len() <= s@.len(),
            forall|j: int| 0 <= j < i ==> s@[j] == prefix@[j],
        decreases prefix@.len() - i,
    {
        if s[i] != prefix[i] {
            assert(s@.subrange(0, prefix@.len() as int)[i as int] != prefix@[i as int]);
            return false;
        }
        i = i + 1;
    }
    assert(s@.subrange(0, prefix@.len() as int) =~= prefix@);
    true
}

/// Does `s` end with `suffix`?
pub open spec fn ends_with_spec(s: Seq<u8>, suffix: Seq<u8>) -> bool {
    suffix.len() <= s.len() && s.subrange(s.len() - suffix.len(), s.len() as int) == suffix
}

pub fn ends_with(s: &Vec<u8>, suffix: &Vec<u8>) -> (r: bool)
    ensures
        r == ends_with_spec(s@, suffix@),
{
    if suffix.len() > s.len() {
        return false;
    }
    let base: usize = s.len() - suffix.len();
    let mut i: usize = 0;
    while i < suffix.len()
        invariant
            i <= suffix@.len() <= s@.len(),
            s@.len() <= usize::MAX,
            base == s@.len() - suffix@.len(),
            forall|j: int| 0 <= j < i ==> s@[base + j] == suffix@[j],
        decreases suffix@.len() - i,
    {
        if s[base + i] != suffix[i] {
            assert(s@.subrange(base as int, s@.len() as int)[i as int] != suffix@[i as int]);
            return false;
        }
        i = i + 1;
    }
    assert(s@.subrange(base as int, s@.len() as int) =~= suffix@);
    true
}

/// One component of a path being normalized.
#[derive(Debug, Clone, PartialEq, Eq)]
pub enum PathPart {
    /// A root separator.
    RootDir,
    /// The current directory.
    CurDir,
    /// The parent directory.
    ParentDir,
    /// A normal name.
    Normal(Vec<u8>),
}

/// The mathematical value of a path component.
pub enum PartView {
    RootDir,
    CurDir,
    ParentDir,
    Normal(Seq<u8>),
}

impl View for PathPart {
    type V = PartView;

    open spec fn view(&self) -> PartView {
        match self {
            PathPart::RootDir => PartView::RootDir,
            PathPart::CurDir => PartView::CurDir,
            PathPart::ParentDir => PartView::ParentDir,
            PathPart::Normal(v) => PartView::Normal(v@),
        }
    }
}

/// The element views of a component vector.
pub open spec fn part_views(ps: Seq<PathPart>) -> Seq<PartView> {
    Seq::new(ps.len(), |i: int| ps[i]@)
}

/// The names left after resolving the path's components in order: a root
/// starts over, the current directory changes nothing, a parent drops the
/// latest name if there is one, and a name is kept.
pub open spec fn normalize_rest_spec(parts: Seq<PartView>) -> Seq<Seq<u8>>
    decreases parts.len(),
{
    if parts.len() == 0 {
        Seq::<Seq<u8>>::empty()
    } else {
        let front = normalize_rest_spec(parts.drop_last());
        match parts.last() {
            PartView::RootDir => Seq::<Seq<u8>>::empty(),
            PartView::CurDir => front,
            PartView::ParentDir => if front.len() > 0 {
                front.drop_last()
            } else {
                front
            },
            PartView::Normal(c) => front.push(c),
        }
    }
}

/// Resolves a path's components, as `normalize_rest_spec` defines it.
pub fn normalize_rest(parts: &Vec<PathPart>) -> (r: Vec<Vec<u8>>)
    ensures
        views_of(r@) == normalize_rest_spec(part_views(parts@)),
{
    let ghost pv = part_views(parts@);
    let mut out: Vec<Vec<u8>> = Vec::new();
    let mut k: usize = 0;
    proof {
        assert(pv.take(0int) =~= Seq::<PartView>::empty());
        assert(views_of(out@) =~~= normalize_rest_spec(pv.take(0int)));
    }
    while k < parts.len()
        invariant
            k <= parts@.len(),
            pv == part_views(parts@),
            views_of(out@) == normalize_rest_spec(pv.take(k as int)),
        decreases parts@.len() - k,
    {
        proof {
            assert(pv.take(k as int + 1).drop_last() =~= pv.take(k as int));
            assert(pv.take(k as int + 1).last() == pv[k as int]);
            assert(pv[k as int] == parts@[k as int]@);
        }
        let ghost old_out = views_of(out@);
        match &parts[k] {
            PathPart::RootDir => {
                out.clear();
                proof {
                    assert(views_of(out@) =~~= Seq::<Seq<u8>>::empty());
                }
            }
            PathPart::CurDir => {}
            PathPart::ParentDir => {
                if out.len() > 0 {
                    out.pop();
                    proof {
                        assert(views_of(out@) =~~= old_out.drop_last());
                    }
                }
            }
            PathPart::Normal(c) => {
                out.push(clone_bytes(c));
                proof {
                    assert(views_of(out@) =~~= old_out.push(c@));
                }
            }
        }
        k = k + 1;
    }
    proof {
        assert(pv.take(parts@.len() as int) =~= pv);
    }
    out
}

/// The prefix of an absolute platform path, as the long-path form needs it.
#[derive(Debug, Clone, PartialEq, Eq)]
pub enum WinPrefix {
    /// Already in verbatim form; such a path is kept as it is.
    Verbatim,
    /// A device namespace, with the device name.
    DeviceNs(Vec<u8>),
    /// A network share, with host and share names.
    Unc(Vec<u8>, Vec<u8>),
    /// A drive, with its letter and colon.
    Disk(Vec<u8>),
}

/// The mathematical value of a path prefix.
pub enum WinPrefixView {
    Verbatim,
    DeviceNs(Seq<u8>),
    Unc(Seq<u8>, Seq<u8>),
    Disk(Seq<u8>),
}

impl View for WinPrefix {
    type V = WinPrefixView;

    open spec fn view(&self) -> WinPrefixView {
        match self {
            WinPrefix::Verbatim => WinPrefixView::Verbatim,
            WinPrefix::DeviceNs(d) => WinPrefixView::DeviceNs(d@),
            WinPrefix::Unc(h, s) => WinPrefixView::Unc(h@, s@),
            WinPrefix::Disk(d) => WinPrefixView::Disk(d@),
        }
    }
}

/// The verbatim form of a non-verbatim prefix: the question-mark namespace,
/// then the device, share, or drive.
pub open spec fn verbatim_base_spec(p: WinPrefixView) -> Seq<u8> {
    match p {
        WinPrefixView::Verbatim => Seq::<u8>::empty(),
        WinPrefixView::DeviceNs(d) => seq![92u8, 92u8, 63u8, 92u8] + d,
        WinPrefixView::Unc(h, s) => seq![92u8, 92u8, 63u8, 92u8, 85u8, 78u8, 67u8, 92u8] + h
            + seq![92u8] + s,
        WinPrefixView::Disk(d) => seq![92u8, 92u8, 63u8, 92u8] + d,
    }
}

/// The base joined with each component behind a separator.
pub open spec fn joined_spec(base: Seq<u8>, comps: Seq<Seq<u8>>) -> Seq<u8>
    decreases comps.len(),
{
    if comps.len() == 0 {
        base
    } else {
        joined_spec(base, comps.drop_last()) + seq![92u8] + comps.last()
    }
}

/// Rebuilds a path able to exceed the platform's short length limit: the
/// prefix in verbatim form, then the normalized rest of the components.  A
/// path whose prefix already is verbatim is kept as it is, which `None`
/// reports.
pub fn long_path(prefix: &WinPrefix, rest: &Vec<PathPart>) -> (r: Option<Vec<u8>>)
    ensures
        match r {
            Some(p) => prefix@ != WinPrefixView::Verbatim && p@ == joined_spec(
                verbatim_base_spec(prefix@),
                normalize_rest_spec(part_views(rest@)),
            ),
            None => prefix@ == WinPrefixView::Verbatim,
        },
{
    let mut base: Vec<u8> = Vec::new();
    base.push(92u8);
    base.push(92u8);
    base.push(63u8);
    base.push(92u8);
    match prefix {
        WinPrefix::Verbatim => {
            return None;
        }
        WinPrefix::DeviceNs(d) => {
            base.extend_from_slice(d.as_slice());
            proof {
                assert(base@ =~= verbatim_base_spec(prefix@));
            }
        }
        WinPrefix::Unc(h, s) => {
            base.push(85u8);
            base.push(78u8);
            base.push(67u8);
            base.push(92u8);
            base.extend_from_slice(h.as_slice());
            base.push(92u8);
            base.extend_from_slice(s.as_slice());
            proof {
                assert(base@ =~= verbatim_base_spec(prefix@));
            }
        }
        WinPrefix::Disk(d) => {
            base.extend_from_slice(d.as_slice());
            proof {
                assert(base@ =~= verbatim_base_spec(prefix@));
            }
        }
    }
    let comps = normalize_rest(rest);
    let ghost cv = views_of(comps@);
    let mut i: usize = 0;
    proof {
        assert(cv.take(0int) =~~= Seq::<Seq<u8>>::empty());
    }
    while i < comps.len()
        invariant
            i <= comps@.len(),
            cv == views_of(comps@),
            cv == normalize_rest_spec(part_views(rest@)),
            base@ == joined_spec(verbatim_base_spec(prefix@), cv.take(i as int)),
        decreases comps@.len() - i,
    {
        base.push(92u8);
        base.extend_from_slice(comps[i].as_slice());
        proof {
            assert(cv.take(i as int + 1).drop_last() =~~= cv.take(i as int));
            assert(cv.take(i as int + 1).last() == cv[i as int]);
            assert(cv[i as int] == comps@[i as int]@);
            assert(base@ =~= joined_spec(verbatim_base_spec(prefix@), cv.take(i as int))
                + seq![92u8] + cv[i as int]);
        }
        i = i + 1;
    }
    proof {
        assert(cv.take(comps@.len() as int) =~~= cv);
    }
    Some(base)
}

/// The index of the last `.` in a file name, or -1 if there is none.
pub open spec fn last_dot(name: Seq<u8>) -> int
    decreases name.len(),
{
    if name.len() == 0 {
        -1
    } else if name.last() == 46 {
        name.len() - 1
    } else {
        last_dot(name.drop_last())
    }
}

/// The extension of a path: the bytes of its file name after the final dot,
/// provided that dot is not the file name's leading byte.
pub open spec fn path_ext_spec(p: Seq<u8>) -> Option<Seq<u8>> {
    let name = file_name_spec(p);
    let j = last_dot(name);
    if j >= 1 {
        Some(name.subrange(j + 1, name.len() as int))
    } else {
        None
    }
}

/// Returns the extension of `p`, as `path_ext_spec` defines it.
pub fn path_ext(p: &Vec<u8>) -> (r: Option<Vec<u8>>)
    ensures
        match r {
            Some(e) => path_ext_spec(p@) == Some(e@),
            None => path_ext_spec(p@) is None,
        },
{
    let name = file_name(p);
    let mut k: usize = name.len();
    proof {
        assert(name@.take(name@.len() as int) =~= name@);
    }
    while k > 0 && name[k - 1] != 46
        invariant
            k <= name@.len(),
            name@ == file_name_spec(p@),
            last_dot(name@) == last_dot(name@.take(k as int)),
        decreases k,
    {
        proof {
            assert(name@.take(k as int).drop_last() =~= name@.take(k as int - 1));
            assert(name@.take(k as int).last() == name@[k as int - 1]);
        }
        k = k - 1;
    }
    if k < 2 {
        proof {
            if k == 0 {
                assert(name@.take(0int) =~= Seq::<u8>::empty());
            } else {
                assert(name@.take(k as int).last() == name@[k as int - 1]);
            }
        }
        return None;
    }
    proof {
        assert(name@.take(k as int).last() == name@[k as int - 1]);
        assert(last_dot(name@) == k - 1);
    }
    Some(bytes_range(&name, k, name.len()))
}

/// The part of a path after its last slash; the whole path if it has none.
pub open spec fn file_name_spec(p: Seq<u8>) -> Seq<u8>
    decreases p.len(),
{
    if p.len() == 0 {
        p
    } else if p.last() == 47 {
        Seq::<u8>::empty()
    } else {
        file_name_spec(p.drop_last()).push(p.last())
    }
}

/// Returns the file-name component of `p`: the bytes after the final `/`.
pub fn file_name(p: &Vec<u8>) -> (r: Vec<u8>)
    ensures
        r@ == file_name_spec(p@),
{
    let mut start: usize = p.len();
    proof {
        assert(p@.take(p@.len() as int) =~= p@);
        assert(p@.subrange(p@.len() as int, p@.len() as int) =~= Seq::<u8>::empty());
        assert(file_name_spec(p@) + Seq::<u8>::empty() =~= file_name_spec(p@));
    }
    while start > 0 && p[start - 1] != 47
        invariant
            start <= p@.len(),
            file_name_spec(p@) == file_name_spec(p@.take(start as int)) + p@.subrange(
                start as int,
                p@.len() as int,
            ),
        decreases start,
    {
        proof {
            assert(p@.take(start as int).drop_last() =~= p@.take(start as int - 1));
            assert(p@.take(start as int).last() == p@[start as int - 1]);
            assert(p@.subrange(start as int - 1, p@.len() as int)
                =~= seq![p@[start as int - 1]] + p@.subrange(start as int, p@.len() as int));
            assert(file_name_spec(p@.take(start as int - 1)).push(p@[start as int - 1])
                + p@.subrange(start as int, p@.len() as int)
                =~= file_name_spec(p@.take(start as int - 1)) + p@.subrange(
                start as int - 1,
                p@.len() as int,
            ));
        }
        start = start - 1;
    }
    proof {
        if start == 0 {
            assert(p@.take(0int) =~= Seq::<u8>::empty());
            assert(file_name_spec(Seq::<u8>::empty()) + p@.subrange(0int, p@.len() as int)
                =~= p@.subrange(0int, p@.len() as int));
        } else {
            assert(p@.take(start as int).last() == p@[start as int - 1]);
            assert(file_name_spec(p@.take(start as int)) + p@.subrange(start as int, p@.len() as int)
                =~= p@.subrange(start as int, p@.len() as int));
        }
    }
    bytes_range(p, start, p.len())
}

} // verus!
