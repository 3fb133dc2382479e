//! What the serving side answers: where a binary lies, its platforms, and its
//! signature.

use vstd::prelude::*;
use vstd::string::StringExecFns;
use crate::catalog::{Bin, Catalog, format_platform_list, platform_list_text};
use crate::runner::{SIGNATURE_LEN, ed25519_accepts};
use crate::signing::SigningAuthority;
use crate::text::{hex_chars, push_hex_text};

verus! {

/// Status of a request for a name that the catalog does not hold.
pub const NOT_FOUND: u16 = 404;

/// Status of a request for a file that cannot be read.
pub const BAD_REQUEST: u16 = 400;

/// A text answer, or a status when there is none.
pub enum ScriptResponse {
    Status(u16),
    Text(String),
}

/// A binary to send by its path, or a status when it cannot be read.
pub enum BinaryResponse {
    Status(u16),
    Bin(String),
}

/// The raw bytes of a signature, or a status when there is none.
pub enum SignResponse {
    Status(u16),
    Bin(Vec<u8>),
}

/// `<dir>/<bin>/<platform>/<arch>/<bin>`
pub open spec fn binary_path_text(
    dir: Seq<char>,
    bin: Seq<char>,
    platform: Seq<char>,
    arch: Seq<char>,
) -> Seq<char> {
    dir + seq!['/'] + bin + seq!['/'] + platform + seq!['/'] + arch + seq!['/'] + bin
}

/// Where the file of a binary lies under the binaries directory: the file
/// has the name of its top-level directory.
pub fn binary_path(dir: &String, bin: &String, platform: &String, arch: &String) -> (r: String)
    ensures
        r@ == binary_path_text(dir@, bin@, platform@, arch@),
{
    let mut s = dir.clone();
    proof {
        reveal_strlit("/");
    }
    s.append("/");
    s.append(bin.as_str());
    s.append("/");
    s.append(platform.as_str());
    s.append("/");
    s.append(arch.as_str());
    s.append("/");
    s.append(bin.as_str());
    proof {
        assert(s@ =~= binary_path_text(dir@, bin@, platform@, arch@));
    }
    s
}

/// The platforms of a binary as text, or `NOT_FOUND`.
pub fn platforms_response(catalog: &Catalog, name: &String) -> (r: ScriptResponse)
    requires
        catalog.wf(),
    ensures
        !catalog@.contains_key(name@) ==> r == ScriptResponse::Status(NOT_FOUND),
        catalog@.contains_key(name@) ==> (r matches ScriptResponse::Text(t) && t@
            == platform_list_text(catalog.platforms_of(name@))),
{
    match catalog.get(name) {
        None => ScriptResponse::Status(NOT_FOUND),
        Some(b) => ScriptResponse::Text(format_platform_list(b)),
    }
}

/// The answer to a request for a binary file: the path when the file could
/// be opened, else `BAD_REQUEST`.
pub fn binary_response(path: String, readable: bool) -> (r: BinaryResponse)
    ensures
        readable ==> r == BinaryResponse::Bin(path),
        !readable ==> r == BinaryResponse::Status(BAD_REQUEST),
{
    if readable {
        BinaryResponse::Bin(path)
    } else {
        BinaryResponse::Status(BAD_REQUEST)
    }
}

/// The answer to a request for a binary's signature, given the file's bytes
/// or `None` when it could not be read: the signature, or `BAD_REQUEST`.
pub fn sign_response(authority: &SigningAuthority, content: Option<Vec<u8>>) -> (r: SignResponse)
    requires
        authority.wf(),
    ensures
        content is None ==> r == SignResponse::Status(BAD_REQUEST),
        content matches Some(c) ==> (r matches SignResponse::Bin(sig) && sig@.len() == SIGNATURE_LEN
            && ed25519_accepts(authority.public_key_view(), c@, sig@)),
{
    match content {
        None => SignResponse::Status(BAD_REQUEST),
        Some(c) => SignResponse::Bin(authority.sign(c.as_slice())),
    }
}

/// Every occurrence of `pat` replaced by `to`, matches taken from the left
/// without overlap.
pub open spec fn replace_all(s: Seq<char>, pat: Seq<char>, to: Seq<char>) -> Seq<char>
    decreases s.len(),
{
    if pat.len() == 0 || s.len() < pat.len() {
        s
    } else if s.take(pat.len() as int) == pat {
        to + replace_all(s.skip(pat.len() as int), pat, to)
    } else {
        seq![s[0]] + replace_all(s.drop_first(), pat, to)
    }
}

/// Relies on str::replace: a new string with every non-overlapping match of
/// the pattern, found from the left, replaced.
#[verifier::external_body]
fn replace(s: &str, pat: &str, to: &str) -> (r: String)
    requires
        pat@.len() > 0,
    ensures
        r@ == replace_all(s@, pat@, to@),
{
    s.replace(pat, to)
}

/// The install script of a binary: the template with its name, its platform
/// list and the external address filled in.
pub open spec fn script_text(
    template: Seq<char>,
    name: Seq<char>,
    platforms: Seq<char>,
    url: Seq<char>,
) -> Seq<char> {
    replace_all(
        replace_all(replace_all(template, "{{NAME}}"@, name), "{{PLATFORM_LIST}}"@, platforms),
        "{{EXTERNAL_ADDRESS}}"@,
        url,
    )
}

/// The install script of a binary, or `NOT_FOUND`.
pub fn script_response(catalog: &Catalog, name: &String, template: &String, url: &String) -> (r:
    ScriptResponse)
    requires
        catalog.wf(),
    ensures
        !catalog@.contains_key(name@) ==> r == ScriptResponse::Status(NOT_FOUND),
        catalog@.contains_key(name@) ==> (r matches ScriptResponse::Text(t) && t@ == script_text(
            template@,
            name@,
            platform_list_text(catalog.platforms_of(name@)),
            url@,
        )),
{
    match catalog.get(name) {
        None => ScriptResponse::Status(NOT_FOUND),
        Some(b) => {
            proof {
                reveal_strlit("{{NAME}}");
                reveal_strlit("{{PLATFORM_LIST}}");
                reveal_strlit("{{EXTERNAL_ADDRESS}}");
            }
            let list = format_platform_list(b);
            let s1 = replace(template.as_str(), "{{NAME}}", b.name.as_str());
            let s2 = replace(s1.as_str(), "{{PLATFORM_LIST}}", list.as_str());
            let s3 = replace(s2.as_str(), "{{EXTERNAL_ADDRESS}}", url.as_str());
            ScriptResponse::Text(s3)
        },
    }
}

/// How `{:?}` writes a string: in double quotes, each character escaped as
/// `char::escape_debug` does.
pub uninterp spec fn debug_text(s: Seq<char>) -> Seq<char>;

/// Relies on `<str as Debug>::fmt`, through `format!("{:?}", s)`: the string
/// quoted and escaped; the result depends on the characters alone.
#[verifier::external_body]
fn debug_quote(s: &str) -> (r: String)
    ensures
        r@ == debug_text(s@),
{
    format!("{:?}", s)
}

/// The views of a sequence of strings.
pub open spec fn string_views(v: Seq<String>) -> Seq<Seq<char>> {
    Seq::new(v.len(), |i: int| v[i]@)
}

/// Texts joined by `, `.
pub open spec fn joined(items: Seq<Seq<char>>) -> Seq<char>
    decreases items.len(),
{
    if items.len() == 0 {
        seq![]
    } else if items.len() == 1 {
        items[0]
    } else {
        joined(items.drop_last()) + seq![',', ' '] + items.last()
    }
}

/// Each platform's `<system>-<arch>` text as `{:?}` writes it.
pub open spec fn platform_debug_texts(ps: Seq<crate::catalog::Platform>) -> Seq<Seq<char>> {
    Seq::new(ps.len(), |i: int| debug_text(crate::catalog::platform_text(ps[i])))
}

/// One line of the index: `- <name> (platforms: [<texts joined by ", ">])\n`,
/// which is how `{:?}` writes a list of strings.
pub open spec fn index_line(name: Seq<char>, texts: Seq<Seq<char>>) -> Seq<char> {
    seq!['-', ' '] + name + " (platforms: ["@ + joined(texts) + seq![']', ')', '\n']
}

/// The index lines of the binaries, each with its platform texts, in order.
pub open spec fn index_lines(bins: Seq<Bin>, texts: Seq<Seq<Seq<char>>>) -> Seq<char>
    decreases bins.len(),
{
    if bins.len() == 0 {
        seq![]
    } else {
        index_lines(bins.drop_last(), texts.drop_last()) + index_line(bins.last().name@, texts.last())
    }
}

/// The index page from the binaries and their platform texts: the
/// manifest's digest in hex and a line for each binary, or only
/// `No binaries found` when there is none.
pub open spec fn index_page_of(
    manifest_digest: Seq<u8>,
    bins: Seq<Bin>,
    texts: Seq<Seq<Seq<char>>>,
) -> Seq<char> {
    if bins.len() == 0 {
        "No binaries found"@
    } else {
        "Manifest hashsum: "@ + hex_chars(manifest_digest) + seq!['\n'] + index_lines(bins, texts)
    }
}

/// The index page of the binaries.
pub open spec fn index_page(manifest_digest: Seq<u8>, bins: Seq<Bin>) -> Seq<char> {
    index_page_of(
        manifest_digest,
        bins,
        Seq::new(bins.len(), |i: int| platform_debug_texts(bins[i].platforms@)),
    )
}

/// The platforms' `<system>-<arch>` texts, each as `{:?}` writes it.
pub fn debug_platform_texts(ps: &Vec<crate::catalog::Platform>) -> (r: Vec<String>)
    ensures
        string_views(r@) == platform_debug_texts(ps@),
{
    let mut r: Vec<String> = Vec::new();
    let mut i: usize = 0;
    while i < ps.len()
        invariant
            i <= ps@.len(),
            r@.len() == i,
            forall|k: int| 0 <= k < i ==> #[trigger] r@[k]@ == debug_text(
                crate::catalog::platform_text(ps@[k]),
            ),
        decreases ps@.len() - i,
    {
        let mut t = String::new();
        crate::catalog::push_platform_text(&mut t, &ps[i]);
        proof {
            assert(t@ =~= crate::catalog::platform_text(ps@[i as int]));
        }
        let q = debug_quote(t.as_str());
        r.push(q);
        i = i + 1;
    }
    proof {
        assert(string_views(r@) =~= platform_debug_texts(ps@));
    }
    r
}

fn push_joined(s: &mut String, items: &Vec<String>)
    ensures
        final(s)@ == old(s)@ + joined(string_views(items@)),
{
    let n = items.len();
    let mut i: usize = 0;
    proof {
        assert(string_views(items@.take(0)) =~= Seq::<Seq<char>>::empty());
        assert(s@ =~= old(s)@ + joined(string_views(items@.take(0))));
    }
    while i < n
        invariant
            i <= n,
            n == items@.len(),
            s@ == old(s)@ + joined(string_views(items@.take(i as int))),
        decreases n - i,
    {
        let ghost before = s@;
        if i > 0 {
            proof {
                reveal_strlit(", ");
            }
            s.append(", ");
        }
        s.append(items[i].as_str());
        proof {
            let t = string_views(items@.take(i + 1));
            assert(t.drop_last() =~= string_views(items@.take(i as int)));
            assert(t.last() == items@[i as int]@);
            if i == 0 {
                assert(s@ =~= before + items@[0]@);
                assert(joined(t) == t[0]);
            } else {
                assert(s@ =~= before + seq![',', ' '] + items@[i as int]@);
            }
            assert(s@ =~= old(s)@ + joined(t));
        }
        i = i + 1;
    }
    proof {
        assert(items@.take(n as int) =~= items@);
    }
}

/// The quoted platform texts of a list of binaries, one list for each.
pub open spec fn texts_of(quoted: Seq<Vec<String>>) -> Seq<Seq<Seq<char>>> {
    Seq::new(quoted.len(), |i: int| string_views(quoted[i]@))
}

/// The index page of the binaries, given for each its platform texts as
/// `{:?}` writes them.
pub fn index_from_texts(manifest_digest: &[u8], bins: &Vec<Bin>, texts: &Vec<Vec<String>>) -> (r:
    String)
    requires
        texts@.len() == bins@.len(),
    ensures
        r@ == index_page_of(manifest_digest@, bins@, texts_of(texts@)),
{
    proof {
        reveal_strlit("No binaries found");
        reveal_strlit("Manifest hashsum: ");
        reveal_strlit("\n");
    }
    let mut s = String::new();
    if bins.len() == 0 {
        s.append("No binaries found");
        return s;
    }
    s.append("Manifest hashsum: ");
    push_hex_text(&mut s, manifest_digest);
    s.append("\n");
    let ghost head = s@;
    let mut i: usize = 0;
    proof {
        assert(bins@.take(0) =~= Seq::<Bin>::empty());
        assert(s@ =~= head + index_lines(bins@.take(0), texts_of(texts@).take(0)));
    }
    while i < bins.len()
        invariant
            i <= bins@.len(),
            texts@.len() == bins@.len(),
            s@ == head + index_lines(bins@.take(i as int), texts_of(texts@).take(i as int)),
        decreases bins@.len() - i,
    {
        let b = &bins[i];
        let ghost before = s@;
        proof {
            reveal_strlit("- ");
            reveal_strlit(" (platforms: [");
            reveal_strlit("])\n");
        }
        s.append("- ");
        s.append(b.name.as_str());
        s.append(" (platforms: [");
        push_joined(&mut s, &texts[i]);
        s.append("])\n");
        proof {
            let tb = bins@.take(i + 1);
            let tt = texts_of(texts@).take(i + 1);
            assert(tb.drop_last() =~= bins@.take(i as int));
            assert(tt.drop_last() =~= texts_of(texts@).take(i as int));
            assert(tb.last() == *b);
            assert(tt.last() == string_views(texts@[i as int]@));
            assert(s@ =~= before + index_line(b.name@, string_views(texts@[i as int]@)));
            assert(s@ =~= head + index_lines(tb, tt));
        }
        i = i + 1;
    }
    proof {
        assert(bins@.take(bins@.len() as int) =~= bins@);
        assert(texts_of(texts@).take(bins@.len() as int) =~= texts_of(texts@));
    }
    s
}

/// The index page of the catalog's binaries, with the digest of the
/// manifest; platform lists are written as `{:?}` writes a list of strings.
pub fn index_text(manifest_digest: &[u8], bins: &Vec<Bin>) -> (r: String)
    ensures
        r@ == index_page(manifest_digest@, bins@),
{
    let mut texts: Vec<Vec<String>> = Vec::new();
    let mut i: usize = 0;
    while i < bins.len()
        invariant
            i <= bins@.len(),
            texts@.len() == i,
            forall|k: int| 0 <= k < i ==> string_views(#[trigger] texts@[k]@) == platform_debug_texts(
                bins@[k].platforms@,
            ),
        decreases bins@.len() - i,
    {
        texts.push(debug_platform_texts(&bins[i].platforms));
        i = i + 1;
    }
    proof {
        assert(texts_of(texts@) =~= Seq::new(
            bins@.len(),
            |k: int| platform_debug_texts(bins@[k].platforms@),
        ));
    }
    index_from_texts(manifest_digest, bins, &texts)
}

} // verus!
