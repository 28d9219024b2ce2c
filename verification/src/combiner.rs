//! The combiner's verified core: merging several pre-built packages into
//! one.  The decisions — which tarballs to take, which directory each one
//! unpacks into, whether a package declares the expected installer version,
//! and what the merged component list says — are byte-exact functions; the
//! unpacking and copying around them is plain filesystem work.

use vstd::prelude::*;

use crate::error::Error;
use crate::util::{
    bytes_range, clone_bytes, ends_with, ends_with_spec, file_name, file_name_spec, is_space,
    is_space_byte, split_bytes, split_spec, trim, trim_spec, views_of,
};
use crate::RUST_INSTALLER_VERSION;

verus! {

/// Is the token nonempty?
pub open spec fn nonempty_pred() -> spec_fn(Seq<u8>) -> bool {
    |t: Seq<u8>| t.len() != 0
}

/// The comma-separated list's tokens, trimmed, empties dropped: how the
/// input-tarball list is read.
pub open spec fn list_spec(s: Seq<u8>) -> Seq<Seq<u8>> {
    split_spec(s, 44).map_values(|t: Seq<u8>| trim_spec(t)).filter(nonempty_pred())
}

/// Splits a comma-separated list, trimming each entry and dropping empty
/// ones.
pub fn split_list(s: &Vec<u8>) -> (r: Vec<Vec<u8>>)
    ensures
        views_of(r@) == list_spec(s@),
{
    let toks = split_bytes(s, 44);
    let ghost mapped = split_spec(s@, 44).map_values(|t: Seq<u8>| trim_spec(t));
    let mut out: Vec<Vec<u8>> = Vec::new();
    let mut i: usize = 0;
    proof {
        reveal(Seq::filter);
        assert(mapped.take(0int) =~~= Seq::<Seq<u8>>::empty());
        assert(views_of(out@) =~~= mapped.take(0int).filter(nonempty_pred()));
    }
    while i < toks.len()
        invariant
            i <= toks@.len(),
            views_of(toks@) == split_spec(s@, 44),
            mapped == split_spec(s@, 44).map_values(|t: Seq<u8>| trim_spec(t)),
            mapped.len() == toks@.len(),
            views_of(out@) == mapped.take(i as int).filter(nonempty_pred()),
        decreases toks@.len() - i,
    {
        let t = trim(&toks[i]);
        proof {
            assert(views_of(toks@)[i as int] == toks@[i as int]@);
            assert(mapped[i as int] == trim_spec(split_spec(s@, 44)[i as int]));
            assert(t@ == mapped[i as int]);
        }
        let ghost old_out = views_of(out@);
        if t.len() > 0 {
            out.push(t);
        }
        proof {
            reveal(Seq::filter);
            assert(mapped.take(i as int + 1).drop_last() =~~= mapped.take(i as int));
            assert(mapped.take(i as int + 1).last() == mapped[i as int]);
            if mapped[i as int].len() != 0 {
                assert(views_of(out@) =~~= old_out.push(mapped[i as int]));
            }
            assert(views_of(out@) =~~= mapped.take(i as int + 1).filter(nonempty_pred()));
        }
        i = i + 1;
    }
    proof {
        assert(mapped.take(mapped.len() as int) =~~= mapped);
    }
    out
}

/// The whitespace-separated tokens of a components file: maximal runs of
/// non-whitespace bytes.
pub open spec fn ws_tokens(s: Seq<u8>) -> Seq<Seq<u8>>
    decreases s.len(),
{
    if s.len() == 0 {
        Seq::<Seq<u8>>::empty()
    } else if is_space(s[0]) {
        ws_tokens(s.drop_first())
    } else if s.len() >= 2 && !is_space(s[1]) {
        let rest = ws_tokens(s.drop_first());
        seq![seq![s[0]] + rest[0]] + rest.drop_first()
    } else {
        seq![seq![s[0]]] + ws_tokens(s.drop_first())
    }
}

/// A token sequence with a started word prepended to it: the word joins the
/// first token when the remainder continues it, and stands alone otherwise.
pub open spec fn ws_cont(cur: Seq<u8>, rest: Seq<u8>) -> Seq<Seq<u8>> {
    if cur.len() == 0 {
        ws_tokens(rest)
    } else if rest.len() > 0 && !is_space(rest[0]) {
        seq![cur + ws_tokens(rest)[0]] + ws_tokens(rest).drop_first()
    } else {
        seq![cur] + ws_tokens(rest)
    }
}

/// A remainder that starts inside a word yields at least one token.
proof fn lemma_ws_tokens_nonempty(s: Seq<u8>)
    requires
        s.len() > 0,
        !is_space(s[0]),
    ensures
        ws_tokens(s).len() >= 1,
{
}

/// Splits on runs of ASCII whitespace, yielding the nonempty words.
pub fn split_whitespace_bytes(s: &Vec<u8>) -> (r: Vec<Vec<u8>>)
    ensures
        views_of(r@) == ws_tokens(s@),
{
    let mut out: Vec<Vec<u8>> = Vec::new();
    let mut cur: Vec<u8> = Vec::new();
    let mut i: usize = 0;
    proof {
        assert(s@.skip(0int) =~= s@);
        assert(views_of(out@) =~~= Seq::<Seq<u8>>::empty());
        assert(views_of(out@) + ws_cont(cur@, s@.skip(0int)) =~~= ws_tokens(s@));
    }
    while i < s.len()
        invariant
            i <= s@.len(),
            ws_tokens(s@) == views_of(out@) + ws_cont(cur@, s@.skip(i as int)),
        decreases s@.len() - i,
    {
        let ghost rest = s@.skip(i as int);
        let ghost rest2 = s@.skip(i as int + 1);
        proof {
            assert(rest[0] == s@[i as int]);
            assert(rest.drop_first() =~= rest2);
            if rest.len() >= 2 {
                assert(rest[1] == s@[i as int + 1]);
                assert(rest2[0] == s@[i as int + 1]);
            }
        }
        let b = s[i];
        let ghost old_out = views_of(out@);
        let ghost old_cur = cur@;
        if is_space_byte(b) {
            if cur.len() > 0 {
                out.push(cur);
                cur = Vec::new();
            }
            proof {
                assert(ws_tokens(rest) =~~= ws_tokens(rest2));
                if old_cur.len() > 0 {
                    assert(ws_cont(old_cur, rest) =~~= seq![old_cur] + ws_tokens(rest2));
                    assert(views_of(out@) =~~= old_out.push(old_cur));
                    assert(old_out + (seq![old_cur] + ws_tokens(rest2)) =~~= views_of(out@)
                        + ws_cont(cur@, rest2));
                } else {
                    assert(ws_cont(old_cur, rest) =~~= ws_cont(cur@, rest2));
                }
            }
        } else {
            cur.push(b);
            proof {
                if rest.len() >= 2 && !is_space(rest[1]) {
                    lemma_ws_tokens_nonempty(rest2);
                    assert(ws_tokens(rest) == seq![seq![rest[0]] + ws_tokens(rest2)[0]]
                        + ws_tokens(rest2).drop_first());
                    assert(ws_cont(old_cur, rest) =~~= ws_cont(cur@, rest2)) by {
                        if old_cur.len() == 0 {
                            assert(cur@ =~= seq![rest[0]]);
                            assert(ws_cont(cur@, rest2) =~~= seq![cur@ + ws_tokens(rest2)[0]]
                                + ws_tokens(rest2).drop_first());
                        } else {
                            assert(old_cur + (seq![rest[0]] + ws_tokens(rest2)[0]) =~= cur@
                                + ws_tokens(rest2)[0]);
                        }
                    }
                } else {
                    assert(ws_tokens(rest) == seq![seq![rest[0]]] + ws_tokens(rest2));
                    assert(ws_cont(old_cur, rest) =~~= ws_cont(cur@, rest2)) by {
                        assert(rest2.len() == 0 || is_space(rest2[0]));
                        if old_cur.len() == 0 {
                            assert(cur@ =~= seq![rest[0]]);
                        } else {
                            assert(ws_cont(old_cur, rest) =~~= seq![old_cur + seq![rest[0]]]
                                + ws_tokens(rest2));
                            assert(old_cur + seq![rest[0]] =~= cur@);
                        }
                    }
                }
            }
        }
        i = i + 1;
    }
    proof {
        assert(s@.skip(i as int) =~= Seq::<u8>::empty());
    }
    if cur.len() > 0 {
        let ghost old_out = views_of(out@);
        let ghost last_cur = cur@;
        out.push(cur);
        proof {
            assert(ws_cont(last_cur, Seq::<u8>::empty()) =~~= seq![last_cur]);
            assert(views_of(out@) =~~= old_out.push(last_cur));
            assert(old_out + seq![last_cur] =~~= views_of(out@));
        }
    } else {
        proof {
            assert(ws_cont(cur@, Seq::<u8>::empty()) =~~= Seq::<Seq<u8>>::empty());
            assert(views_of(out@) + Seq::<Seq<u8>>::empty() =~~= views_of(out@));
        }
    }
    out
}

/// The decimal value of a digit string; non-digits count as zero.
pub open spec fn dec_val(s: Seq<u8>) -> nat
    decreases s.len(),
{
    if s.len() == 0 {
        0
    } else {
        dec_val(s.drop_last()) * 10 + (if 48 <= s.last() <= 57 {
            (s.last() - 48) as nat
        } else {
            0
        })
    }
}

/// Every byte a decimal digit.
pub open spec fn dec_digits_ok(s: Seq<u8>) -> bool {
    forall|i: int| 0 <= i < s.len() ==> 48 <= #[trigger] s[i] <= 57
}

/// The value never shrinks as digits are appended.
proof fn lemma_dec_val_take(s: Seq<u8>, i: int)
    requires
        0 <= i <= s.len(),
    ensures
        dec_val(s.take(i)) <= dec_val(s),
    decreases s.len(),
{
    if i < s.len() {
        lemma_dec_val_take(s.drop_last(), i);
        assert(s.drop_last().take(i) =~= s.take(i));
    } else {
        assert(s.take(i) =~= s);
    }
}

/// An unsigned decimal number as the standard parser accepts it: an
/// optional leading plus, then at least one digit, and a value that fits.
pub open spec fn parse_u32_spec(s: Seq<u8>) -> Option<u32> {
    let digits = if s.len() > 0 && s[0] == 43 {
        s.drop_first()
    } else {
        s
    };
    if digits.len() >= 1 && dec_digits_ok(digits) && dec_val(digits) <= u32::MAX {
        Some(dec_val(digits) as u32)
    } else {
        None
    }
}

/// Parses an unsigned decimal number, exactly as `parse_u32_spec` accepts.
pub fn parse_u32(s: &Vec<u8>) -> (r: Option<u32>)
    ensures
        r == parse_u32_spec(s@),
{
    let mut start: usize = 0;
    if s.len() > 0 && s[0] == 43 {
        start = 1;
    }
    let ghost digits = if s@.len() > 0 && s@[0] == 43 {
        s@.drop_first()
    } else {
        s@
    };
    proof {
        assert(digits =~= s@.subrange(start as int, s@.len() as int));
    }
    if s.len() == start {
        return None;
    }
    let mut acc: u64 = 0;
    let mut j: usize = start;
    proof {
        assert(digits.take(0int) =~= Seq::<u8>::empty());
    }
    while j < s.len()
        invariant
            start <= j <= s@.len(),
            s@.len() <= usize::MAX,
            digits == s@.subrange(start as int, s@.len() as int),
            digits == (if s@.len() > 0 && s@[0] == 43 {
                s@.drop_first()
            } else {
                s@
            }),
            digits.len() >= 1,
            acc as nat == dec_val(digits.take(j - start)),
            acc <= u32::MAX,
            forall|q: int| 0 <= q < j - start ==> 48 <= #[trigger] digits[q] <= 57,
        decreases s@.len() - j,
    {
        let b = s[j];
        proof {
            assert(digits[j - start] == s@[j as int]);
        }
        if b < 48 || b > 57 {
            proof {
                assert(!(48 <= digits[j - start] <= 57));
                assert(!dec_digits_ok(digits));
            }
            return None;
        }
        proof {
            assert(digits.take(j - start + 1).drop_last() =~= digits.take(j - start));
            assert(digits.take(j - start + 1).last() == digits[j - start]);
        }
        let next: u64 = acc * 10 + (b - 48) as u64;
        if next > 0xffff_ffff {
            proof {
                assert(dec_val(digits.take(j - start + 1)) == acc as nat * 10 + (
                (b - 48) as nat));
                lemma_dec_val_take(digits, j - start + 1);
                assert(dec_val(digits) > u32::MAX);
            }
            return None;
        }
        acc = next;
        j = j + 1;
    }
    proof {
        assert(digits.take(s@.len() - start) =~= digits);
    }
    Some(acc as u32)
}

/// Does a version file declare exactly the installer version this library
/// writes?  The content is trimmed, then read as an unsigned decimal.
pub open spec fn expected_version_spec(content: Seq<u8>) -> bool {
    parse_u32_spec(trim_spec(content)) == Some(RUST_INSTALLER_VERSION)
}

/// Checks a merged package's version file content.
pub fn is_expected_version(content: &Vec<u8>) -> (r: bool)
    ensures
        r == expected_version_spec(content@),
{
    let t = trim(content);
    match parse_u32(&t) {
        Some(v) => v == RUST_INSTALLER_VERSION,
        None => false,
    }
}

/// Accepts a merged package's version file exactly when it declares this
/// library's installer version; the error carries the declared text.
pub fn check_package_version(content: &Vec<u8>) -> (r: Result<(), Error>)
    ensures
        r matches Ok(u) ==> expected_version_spec(content@),
        r matches Err(e) ==> !expected_version_spec(content@) && (e matches Error::BadVersion(v)
            && v@ == trim_spec(content@)),
{
    let t = trim(content);
    match parse_u32(&t) {
        Some(v) => {
            if v == RUST_INSTALLER_VERSION {
                Ok(())
            } else {
                Err(Error::BadVersion(t))
            }
        }
        None => Err(Error::BadVersion(t)),
    }
}

/// The suffix repeatedly stripped for the package directory name.
pub open spec fn strip_all_suffix_spec(s: Seq<u8>, suf: Seq<u8>) -> Seq<u8>
    decreases s.len(),
{
    if suf.len() >= 1 && ends_with_spec(s, suf) {
        strip_all_suffix_spec(s.subrange(0, s.len() - suf.len()), suf)
    } else {
        s
    }
}

/// Removes every trailing repetition of `suf` from `s`.
pub fn strip_all_suffix(s: &Vec<u8>, suf: &Vec<u8>) -> (r: Vec<u8>)
    ensures
        r@ == strip_all_suffix_spec(s@, suf@),
{
    let mut cur = clone_bytes(s);
    while suf.len() >= 1 && ends_with(&cur, suf)
        invariant
            strip_all_suffix_spec(s@, suf@) == strip_all_suffix_spec(cur@, suf@),
        decreases cur@.len(),
    {
        let next = bytes_range(&cur, 0, cur.len() - suf.len());
        cur = next;
    }
    cur
}

/// The archive-file suffix a packaged tarball carries.
pub open spec fn tar_gz_suffix_spec() -> Seq<u8> {
    seq![46u8, 116u8, 97u8, 114u8, 46u8, 103u8, 122u8]
}

/// Returns the `.tar.gz` suffix as bytes.
pub fn tar_gz_suffix() -> (r: Vec<u8>)
    ensures
        r@ == tar_gz_suffix_spec(),
{
    let mut r: Vec<u8> = Vec::new();
    r.push(46u8);
    r.push(116u8);
    r.push(97u8);
    r.push(114u8);
    r.push(46u8);
    r.push(103u8);
    r.push(122u8);
    proof {
        assert(r@ =~= tar_gz_suffix_spec());
    }
    r
}

/// The directory an input tarball unpacks into: the tarball's file name
/// with every trailing `.tar.gz` removed.
pub open spec fn package_dir_name_spec(tarball: Seq<u8>) -> Seq<u8> {
    file_name_spec(strip_all_suffix_spec(tarball, tar_gz_suffix_spec()))
}

/// Derives the unpacked directory name of one input tarball.
pub fn package_dir_name(tarball: &Vec<u8>) -> (r: Vec<u8>)
    ensures
        r@ == package_dir_name_spec(tarball@),
{
    let stripped = strip_all_suffix(tarball, &tar_gz_suffix());
    file_name(&stripped)
}

/// Configuration of one combine run: which installers to merge and where
/// the result goes.
#[derive(Debug, Clone)]
pub struct Combiner {
    /// The name of the product, for display.
    pub product_name: String,
    /// The name of the package, tarball.
    pub package_name: String,
    /// The directory under lib/ where the manifest lives.
    pub rel_manifest_dir: String,
    /// The string to print after successful installation.
    pub success_message: String,
    /// Places to look for legacy manifests to uninstall.
    pub legacy_manifest_dirs: String,
    /// Installers to combine.
    pub input_tarballs: String,
    /// Directory containing files that should not be installed.
    pub non_installed_overlay: String,
    /// The directory to do temporary work.
    pub work_dir: String,
    /// The location to put the final image and tarball.
    pub output_dir: String,
}

impl Default for Combiner {
    /// The default combine configuration.
    fn default() -> (r: Combiner)
        ensures
            r.product_name@ == "Product"@,
            r.package_name@ == "package"@,
            r.rel_manifest_dir@ == "packagelib"@,
            r.success_message@ == "Installed."@,
            r.legacy_manifest_dirs@ == ""@,
            r.input_tarballs@ == ""@,
            r.non_installed_overlay@ == ""@,
            r.work_dir@ == "./workdir"@,
            r.output_dir@ == "./dist"@,
    {
        Combiner {
            product_name: "Product".to_string(),
            package_name: "package".to_string(),
            rel_manifest_dir: "packagelib".to_string(),
            success_message: "Installed.".to_string(),
            legacy_manifest_dirs: "".to_string(),
            input_tarballs: "".to_string(),
            non_installed_overlay: "".to_string(),
            work_dir: "./workdir".to_string(),
            output_dir: "./dist".to_string(),
        }
    }
}

impl Combiner {
    /// The name of the product, for display.
    pub fn product_name(self, value: String) -> (r: Self)
        ensures
            r == (Combiner { product_name: value, ..self }),
    {
        Combiner { product_name: value, ..self }
    }

    /// The name of the package, tarball.
    pub fn package_name(self, value: String) -> (r: Self)
        ensures
            r == (Combiner { package_name: value, ..self }),
    {
        Combiner { package_name: value, ..self }
    }

    /// The directory under lib/ where the manifest lives.
    pub fn rel_manifest_dir(self, value: String) -> (r: Self)
        ensures
            r == (Combiner { rel_manifest_dir: value, ..self }),
    {
        Combiner { rel_manifest_dir: value, ..self }
    }

    /// The string to print after successful installation.
    pub fn success_message(self, value: String) -> (r: Self)
        ensures
            r == (Combiner { success_message: value, ..self }),
    {
        Combiner { success_message: value, ..self }
    }

    /// Places to look for legacy manifests to uninstall.
    pub fn legacy_manifest_dirs(self, value: String) -> (r: Self)
        ensures
            r == (Combiner { legacy_manifest_dirs: value, ..self }),
    {
        Combiner { legacy_manifest_dirs: value, ..self }
    }

    /// Installers to combine.
    pub fn input_tarballs(self, value: String) -> (r: Self)
        ensures
            r == (Combiner { input_tarballs: value, ..self }),
    {
        Combiner { input_tarballs: value, ..self }
    }

    /// Directory containing files that should not be installed.
    pub fn non_installed_overlay(self, value: String) -> (r: Self)
        ensures
            r == (Combiner { non_installed_overlay: value, ..self }),
    {
        Combiner { non_installed_overlay: value, ..self }
    }

    /// The directory to do temporary work.
    pub fn work_dir(self, value: String) -> (r: Self)
        ensures
            r == (Combiner { work_dir: value, ..self }),
    {
        Combiner { work_dir: value, ..self }
    }

    /// The location to put the final image and tarball.
    pub fn output_dir(self, value: String) -> (r: Self)
        ensures
            r == (Combiner { output_dir: value, ..self }),
    {
        Combiner { output_dir: value, ..self }
    }
}

} // verus!
