//! The generator's verified core: deciding which copied files the manifest
//! lists singly and which are covered by bulk directories, and rendering
//! the manifest.  Copying the image tree and writing the files around these
//! decisions is plain filesystem work.

use vstd::prelude::*;

use crate::util::{
    clone_bytes, join_lines, lines_spec, split_bytes, split_spec, starts_with, starts_with_spec,
    views_of,
};
use crate::combiner::{nonempty_pred, strip_all_suffix, strip_all_suffix_spec};

verus! {

/// Does the path `f` lie under the directory `d`, component-wise: equal to
/// it, or below it past a separator?  Trailing slashes on `d` carry no
/// meaning, so they are ignored.
pub open spec fn path_starts_with_spec(f: Seq<u8>, d: Seq<u8>) -> bool {
    let b = strip_all_suffix_spec(d, seq![47u8]);
    b.len() >= 1 && (f == b || starts_with_spec(f, b + seq![47u8]))
}

/// Is `f` covered by one of the directories?
pub open spec fn covered(f: Seq<u8>, ds: Seq<Seq<u8>>) -> bool {
    exists|i: int| 0 <= i < ds.len() && path_starts_with_spec(f, #[trigger] ds[i])
}

/// Keeps the files no bulk directory covers.
pub open spec fn keep_pred(ds: Seq<Seq<u8>>) -> spec_fn(Seq<u8>) -> bool {
    |f: Seq<u8>| !covered(f, ds)
}

/// Checks whether `f` lies under `d`.
pub fn path_starts_with(f: &Vec<u8>, d: &Vec<u8>) -> (r: bool)
    ensures
        r == path_starts_with_spec(f@, d@),
{
    let mut slash: Vec<u8> = Vec::new();
    slash.push(47u8);
    proof {
        assert(slash@ =~= seq![47u8]);
    }
    let b = strip_all_suffix(d, &slash);
    if b.len() == 0 {
        return false;
    }
    if crate::util::bytes_eq(f, &b) {
        return true;
    }
    let mut bb = b;
    bb.push(47u8);
    proof {
        assert(bb@ =~= strip_all_suffix_spec(d@, seq![47u8]) + seq![47u8]);
    }
    starts_with(f, &bb)
}

/// Checks whether any of the directories covers `f`.
fn is_covered(f: &Vec<u8>, ds: &Vec<Vec<u8>>) -> (r: bool)
    ensures
        r == covered(f@, views_of(ds@)),
{
    let mut i: usize = 0;
    while i < ds.len()
        invariant
            i <= ds@.len(),
            forall|j: int| 0 <= j < i ==> !path_starts_with_spec(f@, #[trigger] views_of(ds@)[j]),
        decreases ds@.len() - i,
    {
        if path_starts_with(f, &ds[i]) {
            assert(views_of(ds@)[i as int] == ds@[i as int]@);
            return true;
        }
        assert(views_of(ds@)[i as int] == ds@[i as int]@);
        i = i + 1;
    }
    false
}

/// The comma-separated bulk-directory list: empties dropped, nothing
/// trimmed.
pub open spec fn bulk_dirs_spec(s: Seq<u8>) -> Seq<Seq<u8>> {
    split_spec(s, 44).filter(nonempty_pred())
}

/// Splits the bulk-directory configuration at commas, dropping empty
/// entries.
pub fn split_bulk_dirs(s: &Vec<u8>) -> (r: Vec<Vec<u8>>)
    ensures
        views_of(r@) == bulk_dirs_spec(s@),
{
    let toks = split_bytes(s, 44);
    let ghost all = split_spec(s@, 44);
    let mut out: Vec<Vec<u8>> = Vec::new();
    let mut i: usize = 0;
    proof {
        reveal(Seq::filter);
        assert(all.take(0int) =~~= Seq::<Seq<u8>>::empty());
        assert(views_of(out@) =~~= all.take(0int).filter(nonempty_pred()));
    }
    while i < toks.len()
        invariant
            i <= toks@.len(),
            views_of(toks@) == all,
            all == split_spec(s@, 44),
            views_of(out@) == all.take(i as int).filter(nonempty_pred()),
        decreases toks@.len() - i,
    {
        proof {
            assert(views_of(toks@)[i as int] == toks@[i as int]@);
        }
        let ghost old_out = views_of(out@);
        if toks[i].len() > 0 {
            out.push(clone_bytes(&toks[i]));
        }
        proof {
            reveal(Seq::filter);
            assert(all.take(i as int + 1).drop_last() =~~= all.take(i as int));
            assert(all.take(i as int + 1).last() == all[i as int]);
            if all[i as int].len() != 0 {
                assert(views_of(out@) =~~= old_out.push(all[i as int]));
            }
            assert(views_of(out@) =~~= all.take(i as int + 1).filter(nonempty_pred()));
        }
        i = i + 1;
    }
    proof {
        assert(all.take(all.len() as int) =~~= all);
    }
    out
}

/// Keeps exactly the copied files that no bulk directory covers: what the
/// manifest lists file by file.
pub fn filter_bulk(files: &Vec<Vec<u8>>, bulk: &Vec<Vec<u8>>) -> (r: Vec<Vec<u8>>)
    ensures
        views_of(r@) == views_of(files@).filter(keep_pred(views_of(bulk@))),
{
    let ghost fv = views_of(files@);
    let ghost pred = keep_pred(views_of(bulk@));
    let mut out: Vec<Vec<u8>> = Vec::new();
    let mut i: usize = 0;
    proof {
        reveal(Seq::filter);
        assert(fv.take(0int) =~~= Seq::<Seq<u8>>::empty());
        assert(views_of(out@) =~~= fv.take(0int).filter(pred));
    }
    while i < files.len()
        invariant
            i <= files@.len(),
            fv == views_of(files@),
            pred == keep_pred(views_of(bulk@)),
            views_of(out@) == fv.take(i as int).filter(pred),
        decreases files@.len() - i,
    {
        proof {
            assert(fv[i as int] == files@[i as int]@);
        }
        let ghost old_out = views_of(out@);
        if !is_covered(&files[i], bulk) {
            out.push(clone_bytes(&files[i]));
            proof {
                assert(views_of(out@) =~~= old_out.push(fv[i as int]));
            }
        }
        proof {
            reveal(Seq::filter);
            assert(fv.take(i as int + 1).drop_last() =~~= fv.take(i as int));
            assert(fv.take(i as int + 1).last() == fv[i as int]);
            assert(views_of(out@) =~~= fv.take(i as int + 1).filter(pred));
        }
        i = i + 1;
    }
    proof {
        assert(fv.take(fv.len() as int) =~~= fv);
    }
    out
}

/// A manifest line for one file.
pub open spec fn file_line_spec(f: Seq<u8>) -> Seq<u8> {
    seq![102u8, 105u8, 108u8, 101u8, 58u8] + f
}

/// A manifest line for one bulk directory.
pub open spec fn dir_line_spec(d: Seq<u8>) -> Seq<u8> {
    seq![100u8, 105u8, 114u8, 58u8] + d
}

/// The manifest: one `file:` line per kept file, then one `dir:` line per
/// bulk directory, each newline-terminated.
pub open spec fn manifest_spec(files: Seq<Seq<u8>>, dirs: Seq<Seq<u8>>) -> Seq<u8> {
    lines_spec(
        files.map_values(|f: Seq<u8>| file_line_spec(f)) + dirs.map_values(
            |d: Seq<u8>| dir_line_spec(d),
        ),
    )
}

/// Renders the manifest for the kept files and the bulk directories.
pub fn manifest_content(files: &Vec<Vec<u8>>, dirs: &Vec<Vec<u8>>) -> (r: Vec<u8>)
    ensures
        r@ == manifest_spec(views_of(files@), views_of(dirs@)),
{
    let mut items: Vec<Vec<u8>> = Vec::new();
    let ghost want = views_of(files@).map_values(|f: Seq<u8>| file_line_spec(f)) + views_of(
        dirs@,
    ).map_values(|d: Seq<u8>| dir_line_spec(d));
    let mut i: usize = 0;
    while i < files.len()
        invariant
            i <= files@.len(),
            views_of(items@).len() == i,
            forall|j: int|
                0 <= j < i ==> #[trigger] views_of(items@)[j] == file_line_spec(
                    views_of(files@)[j],
                ),
        decreases files@.len() - i,
    {
        let mut line: Vec<u8> = Vec::new();
        line.push(102u8);
        line.push(105u8);
        line.push(108u8);
        line.push(101u8);
        line.push(58u8);
        line.extend_from_slice(files[i].as_slice());
        proof {
            assert(line@ =~= file_line_spec(files@[i as int]@));
            assert(views_of(files@)[i as int] == files@[i as int]@);
        }
        let ghost old_items = views_of(items@);
        items.push(line);
        proof {
            assert(views_of(items@) =~~= old_items.push(file_line_spec(views_of(files@)[i as int])));
        }
        i = i + 1;
    }
    let fcount = files.len();
    let mut k: usize = 0;
    while k < dirs.len()
        invariant
            k <= dirs@.len(),
            fcount == files@.len(),
            views_of(items@).len() == fcount + k,
            forall|j: int|
                0 <= j < fcount ==> #[trigger] views_of(items@)[j] == file_line_spec(
                    views_of(files@)[j],
                ),
            forall|j: int|
                0 <= j < k ==> #[trigger] views_of(items@)[fcount + j] == dir_line_spec(
                    views_of(dirs@)[j],
                ),
        decreases dirs@.len() - k,
    {
        let mut line: Vec<u8> = Vec::new();
        line.push(100u8);
        line.push(105u8);
        line.push(114u8);
        line.push(58u8);
        line.extend_from_slice(dirs[k].as_slice());
        proof {
            assert(line@ =~= dir_line_spec(dirs@[k as int]@));
            assert(views_of(dirs@)[k as int] == dirs@[k as int]@);
        }
        let ghost old_items = views_of(items@);
        items.push(line);
        proof {
            assert(views_of(items@) =~~= old_items.push(dir_line_spec(views_of(dirs@)[k as int])));
        }
        k = k + 1;
    }
    proof {
        assert(views_of(items@).len() == want.len());
        assert forall|j: int| 0 <= j < want.len() implies views_of(items@)[j] == want[j] by {
            if j < fcount {
                assert(views_of(items@)[j] == file_line_spec(views_of(files@)[j]));
            } else {
                let q = j - fcount;
                assert(views_of(items@)[fcount + q] == dir_line_spec(views_of(dirs@)[q]));
            }
        }
        assert(views_of(items@) =~~= want);
    }
    join_lines(&items)
}

/// Configuration of one generate run: what to package from which image
/// directory, and where the result goes.
#[derive(Debug, Clone)]
pub struct Generator {
    /// The name of the product, for display.
    pub product_name: String,
    /// The name of the component, distinct from other installed components.
    pub component_name: String,
    /// The name of the package, tarball.
    pub package_name: String,
    /// The directory under lib/ where the manifest lives.
    pub rel_manifest_dir: String,
    /// The string to print after successful installation.
    pub success_message: String,
    /// Places to look for legacy manifests to uninstall.
    pub legacy_manifest_dirs: String,
    /// Directory containing files that should not be installed.
    pub non_installed_overlay: String,
    /// Path prefixes of directories that should be installed or
    /// uninstalled in bulk.
    pub bulk_dirs: String,
    /// The directory containing the installation medium.
    pub image_dir: String,
    /// The directory to do temporary work.
    pub work_dir: String,
    /// The location to put the final image and tarball.
    pub output_dir: String,
}

impl Default for Generator {
    /// The default generate configuration.
    fn default() -> (r: Generator)
        ensures
            r.product_name@ == "Product"@,
            r.component_name@ == "component"@,
            r.package_name@ == "package"@,
            r.rel_manifest_dir@ == "packagelib"@,
            r.success_message@ == "Installed."@,
            r.legacy_manifest_dirs@ == ""@,
            r.non_installed_overlay@ == ""@,
            r.bulk_dirs@ == ""@,
            r.image_dir@ == "./install_image"@,
            r.work_dir@ == "./workdir"@,
            r.output_dir@ == "./dist"@,
    {
        Generator {
            product_name: "Product".to_string(),
            component_name: "component".to_string(),
            package_name: "package".to_string(),
            rel_manifest_dir: "packagelib".to_string(),
            success_message: "Installed.".to_string(),
            legacy_manifest_dirs: "".to_string(),
            non_installed_overlay: "".to_string(),
            bulk_dirs: "".to_string(),
            image_dir: "./install_image".to_string(),
            work_dir: "./workdir".to_string(),
            output_dir: "./dist".to_string(),
        }
    }
}

impl Generator {
    /// The name of the product, for display.
    pub fn product_name(self, value: String) -> (r: Self)
        ensures
            r == (Generator { product_name: value, ..self }),
    {
        Generator { product_name: value, ..self }
    }

    /// The name of the component, distinct from other installed components.
    pub fn component_name(self, value: String) -> (r: Self)
        ensures
            r == (Generator { component_name: value, ..self }),
    {
        Generator { component_name: value, ..self }
    }

    /// The name of the package, tarball.
    pub fn package_name(self, value: String) -> (r: Self)
        ensures
            r == (Generator { package_name: value, ..self }),
    {
        Generator { package_name: value, ..self }
    }

    /// The directory under lib/ where the manifest lives.
    pub fn rel_manifest_dir(self, value: String) -> (r: Self)
        ensures
            r == (Generator { rel_manifest_dir: value, ..self }),
    {
        Generator { rel_manifest_dir: value, ..self }
    }

    /// The string to print after successful installation.
    pub fn success_message(self, value: String) -> (r: Self)
        ensures
            r == (Generator { success_message: value, ..self }),
    {
        Generator { success_message: value, ..self }
    }

    /// Places to look for legacy manifests to uninstall.
    pub fn legacy_manifest_dirs(self, value: String) -> (r: Self)
        ensures
            r == (Generator { legacy_manifest_dirs: value, ..self }),
    {
        Generator { legacy_manifest_dirs: value, ..self }
    }

    /// Directory containing files that should not be installed.
    pub fn non_installed_overlay(self, value: String) -> (r: Self)
        ensures
            r == (Generator { non_installed_overlay: value, ..self }),
    {
        Generator { non_installed_overlay: value, ..self }
    }

    /// Path prefixes of directories that should be installed or
    /// uninstalled in bulk.
    pub fn bulk_dirs(self, value: String) -> (r: Self)
        ensures
            r == (Generator { bulk_dirs: value, ..self }),
    {
        Generator { bulk_dirs: value, ..self }
    }

    /// The directory containing the installation medium.
    pub fn image_dir(self, value: String) -> (r: Self)
        ensures
            r == (Generator { image_dir: value, ..self }),
    {
        Generator { image_dir: value, ..self }
    }

    /// The directory to do temporary work.
    pub fn work_dir(self, value: String) -> (r: Self)
        ensures
            r == (Generator { work_dir: value, ..self }),
    {
        Generator { work_dir: value, ..self }
    }

    /// The location to put the final image and tarball.
    pub fn output_dir(self, value: String) -> (r: Self)
        ensures
            r == (Generator { output_dir: value, ..self }),
    {
        Generator { output_dir: value, ..self }
    }
}

} // verus!
