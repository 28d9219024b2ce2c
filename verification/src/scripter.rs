//! The install-script generator's verified core: template substitution.
//! The script text is produced by exact byte-level replacement of the
//! template's tokens, with shell quoting of the values spliced in.

use vstd::prelude::*;

use crate::RUST_INSTALLER_VERSION;

verus! {

/// `s` with every occurrence of `from` replaced by `to`, scanning left to
/// right without overlap, as the standard string replacement does.
pub open spec fn replace_spec(s: Seq<u8>, from: Seq<u8>, to: Seq<u8>) -> Seq<u8>
    decreases s.len(),
{
    if s.len() == 0 {
        s
    } else if 1 <= from.len() <= s.len() && s.subrange(0, from.len() as int) == from {
        to + replace_spec(s.skip(from.len() as int), from, to)
    } else {
        seq![s[0]] + replace_spec(s.drop_first(), from, to)
    }
}

/// Does `pat` occur in `s` at position `i`?
fn matches_at(s: &Vec<u8>, i: usize, pat: &Vec<u8>) -> (r: bool)
    requires
        i <= s@.len(),
    ensures
        r == (i + pat@.len() <= s@.len() && s@.subrange(i as int, i + pat@.len()) == pat@),
{
    if s.len() - i < pat.len() {
        return false;
    }
    let mut j: usize = 0;
    while j < pat.len()
        invariant
            j <= pat@.len(),
            i + pat@.len() <= s@.len(),
            s@.len() <= usize::MAX,
            forall|q: int| 0 <= q < j ==> s@[i + q] == pat@[q],
        decreases pat@.len() - j,
    {
        if s[i + j] != pat[j] {
            assert(s@.subrange(i as int, i + pat@.len())[j as int] != pat@[j as int]);
            return false;
        }
        j = j + 1;
    }
    assert(s@.subrange(i as int, i + pat@.len()) =~= pat@);
    true
}

/// Replaces every occurrence of `from` in `s` by `to`, scanning left to
/// right without overlap.
pub fn replace_all(s: &Vec<u8>, from: &Vec<u8>, to: &Vec<u8>) -> (r: Vec<u8>)
    requires
        1 <= from@.len(),
    ensures
        r@ == replace_spec(s@, from@, to@),
{
    let mut out: Vec<u8> = Vec::new();
    let mut i: usize = 0;
    proof {
        assert(s@.skip(0int) =~= s@);
        assert(out@ + replace_spec(s@, from@, to@) =~= replace_spec(s@, from@, to@));
    }
    while i < s.len()
        invariant
            i <= s@.len(),
            1 <= from@.len(),
            replace_spec(s@, from@, to@) == out@ + replace_spec(s@.skip(i as int), from@, to@),
        decreases s@.len() - i,
    {
        let ghost rest = s@.skip(i as int);
        let ghost old_out = out@;
        if matches_at(s, i, from) {
            out.extend_from_slice(to.as_slice());
            proof {
                assert(rest.subrange(0, from@.len() as int) =~= s@.subrange(
                    i as int,
                    i + from@.len(),
                ));
                assert(rest.skip(from@.len() as int) =~= s@.skip(i + from@.len()));
                assert(replace_spec(rest, from@, to@) == to@ + replace_spec(
                    s@.skip(i + from@.len()),
                    from@,
                    to@,
                ));
                assert(old_out + (to@ + replace_spec(s@.skip(i + from@.len()), from@, to@))
                    =~= (old_out + to@) + replace_spec(s@.skip(i + from@.len()), from@, to@));
            }
            i = i + from.len();
        } else {
            out.push(s[i]);
            proof {
                assert(rest[0] == s@[i as int]);
                assert(rest.drop_first() =~= s@.skip(i as int + 1));
                if 1 <= from@.len() && from@.len() <= rest.len() {
                    assert(rest.subrange(0, from@.len() as int) =~= s@.subrange(
                        i as int,
                        i + from@.len(),
                    ));
                }
                assert(replace_spec(rest, from@, to@) == seq![rest[0]] + replace_spec(
                    rest.drop_first(),
                    from@,
                    to@,
                ));
                assert(old_out + (seq![rest[0]] + replace_spec(rest.drop_first(), from@, to@))
                    =~= (old_out.push(rest[0])) + replace_spec(rest.drop_first(), from@, to@));
            }
            i = i + 1;
        }
    }
    proof {
        assert(s@.skip(i as int) =~= Seq::<u8>::empty());
        assert(out@ + Seq::<u8>::empty() =~= out@);
    }
    out
}

/// The value wrapped for the shell: single-quoted, with every single quote
/// turned into a quoted double-quoted single quote.
pub open spec fn sh_quote_spec(s: Seq<u8>) -> Seq<u8> {
    seq![39u8] + replace_spec(s, seq![39u8], seq![39u8, 34u8, 39u8, 34u8, 39u8]) + seq![39u8]
}

/// Single-quotes a value for the shell, escaping the single quotes it
/// holds.
pub fn sh_quote(s: &Vec<u8>) -> (r: Vec<u8>)
    ensures
        r@ == sh_quote_spec(s@),
{
    let mut from: Vec<u8> = Vec::new();
    from.push(39u8);
    let mut to: Vec<u8> = Vec::new();
    to.push(39u8);
    to.push(34u8);
    to.push(39u8);
    to.push(34u8);
    to.push(39u8);
    proof {
        assert(from@ =~= seq![39u8]);
        assert(to@ =~= seq![39u8, 34u8, 39u8, 34u8, 39u8]);
    }
    let mid = replace_all(s, &from, &to);
    let mut r: Vec<u8> = Vec::new();
    r.push(39u8);
    r.extend_from_slice(mid.as_slice());
    r.push(39u8);
    proof {
        assert(r@ =~= sh_quote_spec(s@));
    }
    r
}

/// `n` in decimal, most significant digit first, no sign and no padding.
pub open spec fn decimal(n: nat) -> Seq<u8>
    decreases n,
{
    if n < 10 {
        seq![(48 + n) as u8]
    } else {
        decimal(n / 10) + seq![(48 + n % 10) as u8]
    }
}

/// Appends `n` in decimal.
pub fn push_decimal(out: &mut Vec<u8>, n: u32)
    ensures
        final(out)@ == old(out)@ + decimal(n as nat),
    decreases n,
{
    if n < 10 {
        out.push(48 + n as u8);
        proof {
            assert(old(out)@ + decimal(n as nat) =~= old(out)@.push((48 + n) as u8));
        }
    } else {
        push_decimal(out, n / 10);
        out.push(48 + (n % 10) as u8);
        proof {
            assert((n as nat) / 10 == (n / 10) as nat);
            assert((n as nat) % 10 == (n % 10) as nat);
            assert(old(out)@ + decimal(n as nat) =~= (old(out)@ + decimal((n / 10) as nat)).push(
                (48 + (n as nat) % 10) as u8,
            ));
        }
    }
}

/// The template token for product name.
pub open spec fn product_name_placeholder_spec() -> Seq<u8> {
    seq![37u8, 37u8, 84u8, 69u8, 77u8, 80u8, 76u8, 65u8, 84u8, 69u8, 95u8, 80u8, 82u8, 79u8, 68u8, 85u8, 67u8, 84u8, 95u8, 78u8, 65u8, 77u8, 69u8, 37u8, 37u8]
}

/// Returns that template token as bytes.
pub fn product_name_placeholder() -> (r: Vec<u8>)
    ensures
        r@ == product_name_placeholder_spec(),
{
    let mut r: Vec<u8> = Vec::new();
    r.push(37u8);
    r.push(37u8);
    r.push(84u8);
    r.push(69u8);
    r.push(77u8);
    r.push(80u8);
    r.push(76u8);
    r.push(65u8);
    r.push(84u8);
    r.push(69u8);
    r.push(95u8);
    r.push(80u8);
    r.push(82u8);
    r.push(79u8);
    r.push(68u8);
    r.push(85u8);
    r.push(67u8);
    r.push(84u8);
    r.push(95u8);
    r.push(78u8);
    r.push(65u8);
    r.push(77u8);
    r.push(69u8);
    r.push(37u8);
    r.push(37u8);
    proof {
        assert(r@ =~= product_name_placeholder_spec());
    }
    r
}

/// The template token for rel manifest dir.
pub open spec fn rel_manifest_dir_placeholder_spec() -> Seq<u8> {
    seq![37u8, 37u8, 84u8, 69u8, 77u8, 80u8, 76u8, 65u8, 84u8, 69u8, 95u8, 82u8, 69u8, 76u8, 95u8, 77u8, 65u8, 78u8, 73u8, 70u8, 69u8, 83u8, 84u8, 95u8, 68u8, 73u8, 82u8, 37u8, 37u8]
}

/// Returns that template token as bytes.
pub fn rel_manifest_dir_placeholder() -> (r: Vec<u8>)
    ensures
        r@ == rel_manifest_dir_placeholder_spec(),
{
    let mut r: Vec<u8> = Vec::new();
    r.push(37u8);
    r.push(37u8);
    r.push(84u8);
    r.push(69u8);
    r.push(77u8);
    r.push(80u8);
    r.push(76u8);
    r.push(65u8);
    r.push(84u8);
    r.push(69u8);
    r.push(95u8);
    r.push(82u8);
    r.push(69u8);
    r.push(76u8);
    r.push(95u8);
    r.push(77u8);
    r.push(65u8);
    r.push(78u8);
    r.push(73u8);
    r.push(70u8);
    r.push(69u8);
    r.push(83u8);
    r.push(84u8);
    r.push(95u8);
    r.push(68u8);
    r.push(73u8);
    r.push(82u8);
    r.push(37u8);
    r.push(37u8);
    proof {
        assert(r@ =~= rel_manifest_dir_placeholder_spec());
    }
    r
}

/// The template token for success message.
pub open spec fn success_message_placeholder_spec() -> Seq<u8> {
    seq![37u8, 37u8, 84u8, 69u8, 77u8, 80u8, 76u8, 65u8, 84u8, 69u8, 95u8, 83u8, 85u8, 67u8, 67u8, 69u8, 83u8, 83u8, 95u8, 77u8, 69u8, 83u8, 83u8, 65u8, 71u8, 69u8, 37u8, 37u8]
}

/// Returns that template token as bytes.
pub fn success_message_placeholder() -> (r: Vec<u8>)
    ensures
        r@ == success_message_placeholder_spec(),
{
    let mut r: Vec<u8> = Vec::new();
    r.push(37u8);
    r.push(37u8);
    r.push(84u8);
    r.push(69u8);
    r.push(77u8);
    r.push(80u8);
    r.push(76u8);
    r.push(65u8);
    r.push(84u8);
    r.push(69u8);
    r.push(95u8);
    r.push(83u8);
    r.push(85u8);
    r.push(67u8);
    r.push(67u8);
    r.push(69u8);
    r.push(83u8);
    r.push(83u8);
    r.push(95u8);
    r.push(77u8);
    r.push(69u8);
    r.push(83u8);
    r.push(83u8);
    r.push(65u8);
    r.push(71u8);
    r.push(69u8);
    r.push(37u8);
    r.push(37u8);
    proof {
        assert(r@ =~= success_message_placeholder_spec());
    }
    r
}

/// The template token for legacy manifest dirs.
pub open spec fn legacy_manifest_dirs_placeholder_spec() -> Seq<u8> {
    seq![37u8, 37u8, 84u8, 69u8, 77u8, 80u8, 76u8, 65u8, 84u8, 69u8, 95u8, 76u8, 69u8, 71u8, 65u8, 67u8, 89u8, 95u8, 77u8, 65u8, 78u8, 73u8, 70u8, 69u8, 83u8, 84u8, 95u8, 68u8, 73u8, 82u8, 83u8, 37u8, 37u8]
}

/// Returns that template token as bytes.
pub fn legacy_manifest_dirs_placeholder() -> (r: Vec<u8>)
    ensures
        r@ == legacy_manifest_dirs_placeholder_spec(),
{
    let mut r: Vec<u8> = Vec::new();
    r.push(37u8);
    r.push(37u8);
    r.push(84u8);
    r.push(69u8);
    r.push(77u8);
    r.push(80u8);
    r.push(76u8);
    r.push(65u8);
    r.push(84u8);
    r.push(69u8);
    r.push(95u8);
    r.push(76u8);
    r.push(69u8);
    r.push(71u8);
    r.push(65u8);
    r.push(67u8);
    r.push(89u8);
    r.push(95u8);
    r.push(77u8);
    r.push(65u8);
    r.push(78u8);
    r.push(73u8);
    r.push(70u8);
    r.push(69u8);
    r.push(83u8);
    r.push(84u8);
    r.push(95u8);
    r.push(68u8);
    r.push(73u8);
    r.push(82u8);
    r.push(83u8);
    r.push(37u8);
    r.push(37u8);
    proof {
        assert(r@ =~= legacy_manifest_dirs_placeholder_spec());
    }
    r
}

/// The template token for installer version.
pub open spec fn installer_version_placeholder_spec() -> Seq<u8> {
    seq![37u8, 37u8, 84u8, 69u8, 77u8, 80u8, 76u8, 65u8, 84u8, 69u8, 95u8, 82u8, 85u8, 83u8, 84u8, 95u8, 73u8, 78u8, 83u8, 84u8, 65u8, 76u8, 76u8, 69u8, 82u8, 95u8, 86u8, 69u8, 82u8, 83u8, 73u8, 79u8, 78u8, 37u8, 37u8]
}

/// Returns that template token as bytes.
pub fn installer_version_placeholder() -> (r: Vec<u8>)
    ensures
        r@ == installer_version_placeholder_spec(),
{
    let mut r: Vec<u8> = Vec::new();
    r.push(37u8);
    r.push(37u8);
    r.push(84u8);
    r.push(69u8);
    r.push(77u8);
    r.push(80u8);
    r.push(76u8);
    r.push(65u8);
    r.push(84u8);
    r.push(69u8);
    r.push(95u8);
    r.push(82u8);
    r.push(85u8);
    r.push(83u8);
    r.push(84u8);
    r.push(95u8);
    r.push(73u8);
    r.push(78u8);
    r.push(83u8);
    r.push(84u8);
    r.push(65u8);
    r.push(76u8);
    r.push(76u8);
    r.push(69u8);
    r.push(82u8);
    r.push(95u8);
    r.push(86u8);
    r.push(69u8);
    r.push(82u8);
    r.push(83u8);
    r.push(73u8);
    r.push(79u8);
    r.push(78u8);
    r.push(37u8);
    r.push(37u8);
    proof {
        assert(r@ =~= installer_version_placeholder_spec());
    }
    r
}

/// Dashes turned into spaces, as the display values are normalized before
/// quoting.
pub open spec fn dash_to_space(s: Seq<u8>) -> Seq<u8> {
    replace_spec(s, seq![45u8], seq![32u8])
}

/// The generated install script: the template with every token replaced.
/// The product name and success message have dashes turned to spaces and
/// are shell-quoted, as are the legacy manifest directories and the
/// installer version; the manifest directory is spliced in verbatim.
pub open spec fn script_spec(
    template: Seq<u8>,
    product_name: Seq<u8>,
    rel_manifest_dir: Seq<u8>,
    success_message: Seq<u8>,
    legacy_manifest_dirs: Seq<u8>,
) -> Seq<u8> {
    let s1 = replace_spec(
        template,
        product_name_placeholder_spec(),
        sh_quote_spec(dash_to_space(product_name)),
    );
    let s2 = replace_spec(s1, rel_manifest_dir_placeholder_spec(), rel_manifest_dir);
    let s3 = replace_spec(
        s2,
        success_message_placeholder_spec(),
        sh_quote_spec(dash_to_space(success_message)),
    );
    let s4 = replace_spec(
        s3,
        legacy_manifest_dirs_placeholder_spec(),
        sh_quote_spec(legacy_manifest_dirs),
    );
    replace_spec(
        s4,
        installer_version_placeholder_spec(),
        sh_quote_spec(decimal(RUST_INSTALLER_VERSION as nat)),
    )
}

/// Generates the install script from the template and the configured
/// values.
pub fn generate_script(
    template: &Vec<u8>,
    product_name: &Vec<u8>,
    rel_manifest_dir: &Vec<u8>,
    success_message: &Vec<u8>,
    legacy_manifest_dirs: &Vec<u8>,
) -> (r: Vec<u8>)
    ensures
        r@ == script_spec(
            template@,
            product_name@,
            rel_manifest_dir@,
            success_message@,
            legacy_manifest_dirs@,
        ),
{
    let mut dash: Vec<u8> = Vec::new();
    dash.push(45u8);
    let mut space: Vec<u8> = Vec::new();
    space.push(32u8);
    proof {
        assert(dash@ =~= seq![45u8]);
        assert(space@ =~= seq![32u8]);
    }
    let pn = sh_quote(&replace_all(product_name, &dash, &space));
    let sm = sh_quote(&replace_all(success_message, &dash, &space));
    let lmd = sh_quote(legacy_manifest_dirs);
    let mut version: Vec<u8> = Vec::new();
    push_decimal(&mut version, RUST_INSTALLER_VERSION);
    let ver = sh_quote(&version);
    proof {
        assert(version@ =~= decimal(RUST_INSTALLER_VERSION as nat));
    }
    let s1 = replace_all(template, &product_name_placeholder(), &pn);
    let s2 = replace_all(&s1, &rel_manifest_dir_placeholder(), rel_manifest_dir);
    let s3 = replace_all(&s2, &success_message_placeholder(), &sm);
    let s4 = replace_all(&s3, &legacy_manifest_dirs_placeholder(), &lmd);
    replace_all(&s4, &installer_version_placeholder(), &ver)
}

/// Configuration of the install-script generator.
#[derive(Debug, Clone)]
pub struct Scripter {
    /// The name of the product, for display.
    pub product_name: String,
    /// The directory under lib/ where the manifest lives.
    pub rel_manifest_dir: String,
    /// The string to print after successful installation.
    pub success_message: String,
    /// Places to look for legacy manifests to uninstall.
    pub legacy_manifest_dirs: String,
    /// The name of the output script.
    pub output_script: String,
}

impl Default for Scripter {
    /// The default generator configuration.
    fn default() -> (r: Self)
        ensures
            r.product_name@ == "Product"@,
            r.rel_manifest_dir@ == "manifestlib"@,
            r.success_message@ == "Installed."@,
            r.legacy_manifest_dirs@ == ""@,
            r.output_script@ == "install.sh"@,
    {
        Scripter {
            product_name: "Product".to_string(),
            rel_manifest_dir: "manifestlib".to_string(),
            success_message: "Installed.".to_string(),
            legacy_manifest_dirs: "".to_string(),
            output_script: "install.sh".to_string(),
        }
    }
}

impl Scripter {
    /// Sets the name of the product, for display.
    pub fn product_name(self, value: String) -> (r: Self)
        ensures
            r.product_name == value,
            r.rel_manifest_dir == self.rel_manifest_dir,
            r.success_message == self.success_message,
            r.legacy_manifest_dirs == self.legacy_manifest_dirs,
            r.output_script == self.output_script,
    {
        Scripter { product_name: value, ..self }
    }

    /// Sets the directory under lib/ where the manifest lives.
    pub fn rel_manifest_dir(self, value: String) -> (r: Self)
        ensures
            r.rel_manifest_dir == value,
            r.product_name == self.product_name,
            r.success_message == self.success_message,
            r.legacy_manifest_dirs == self.legacy_manifest_dirs,
            r.output_script == self.output_script,
    {
        Scripter { rel_manifest_dir: value, ..self }
    }

    /// Sets the string to print after successful installation.
    pub fn success_message(self, value: String) -> (r: Self)
        ensures
            r.success_message == value,
            r.product_name == self.product_name,
            r.rel_manifest_dir == self.rel_manifest_dir,
            r.legacy_manifest_dirs == self.legacy_manifest_dirs,
            r.output_script == self.output_script,
    {
        Scripter { success_message: value, ..self }
    }

    /// Sets the places to look for legacy manifests to uninstall.
    pub fn legacy_manifest_dirs(self, value: String) -> (r: Self)
        ensures
            r.legacy_manifest_dirs == value,
            r.product_name == self.product_name,
            r.rel_manifest_dir == self.rel_manifest_dir,
            r.success_message == self.success_message,
            r.output_script == self.output_script,
    {
        Scripter { legacy_manifest_dirs: value, ..self }
    }

    /// Sets the name of the output script.
    pub fn output_script(self, value: String) -> (r: Self)
        ensures
            r.output_script == value,
            r.product_name == self.product_name,
            r.rel_manifest_dir == self.rel_manifest_dir,
            r.success_message == self.success_message,
            r.legacy_manifest_dirs == self.legacy_manifest_dirs,
    {
        Scripter { output_script: value, ..self }
    }
}

} // verus!
