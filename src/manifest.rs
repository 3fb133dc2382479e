//! The manifest: the signing authority's public key followed by one line
//! `<hex digest>  <file name>\n` for each verifier artifact.

use vstd::prelude::*;
use vstd::utf8::encode_utf8;
use crate::text::{hex_chars, push_bytes, push_hex_text};

verus! {

/// The SHA-256 digest of some bytes.
pub uninterp spec fn sha256_of(data: Seq<u8>) -> Seq<u8>;

/// Relies on sha2::Sha256 through `Digest::digest`: the 32-byte SHA-256
/// digest of the data.
#[verifier::external_body]
fn sha256(data: &[u8]) -> (r: Vec<u8>)
    ensures
        r@ == sha256_of(data@),
        r@.len() == 32,
{
    <sha2::Sha256 as sha2::Digest>::digest(data).to_vec()
}

/// The SHA-256 digest of some bytes.
pub fn digest(data: &[u8]) -> (r: Vec<u8>)
    ensures
        r@ == sha256_of(data@),
        r@.len() == 32,
{
    sha256(data)
}

/// One line of the manifest: the digest in lower-case hex, two spaces, the
/// file name and a newline.
pub open spec fn manifest_line(digest: Seq<u8>, name: Seq<u8>) -> Seq<u8> {
    encode_utf8(hex_chars(digest)) + seq![32u8, 32u8] + name + seq![10u8]
}

/// The manifest of a public key and of (digest, file name) pairs, in order.
pub open spec fn manifest_text(public_key: Seq<u8>, lines: Seq<(Seq<u8>, Seq<u8>)>) -> Seq<u8>
    decreases lines.len(),
{
    if lines.len() == 0 {
        public_key
    } else {
        manifest_text(public_key, lines.drop_last()) + manifest_line(
            lines.last().0,
            lines.last().1,
        )
    }
}

/// A verifier artifact: a file name and the file's bytes.
pub struct Artifact {
    pub name: Vec<u8>,
    pub content: Vec<u8>,
}

/// Whether name `a` comes strictly before name `b`: byte by byte, and a
/// proper prefix first.
pub open spec fn name_lt(a: Seq<u8>, b: Seq<u8>) -> bool
    decreases a.len(),
{
    if a.len() == 0 {
        b.len() > 0
    } else if b.len() == 0 {
        false
    } else if a[0] != b[0] {
        a[0] < b[0]
    } else {
        name_lt(a.drop_first(), b.drop_first())
    }
}

/// Artifacts in order of their names.
pub open spec fn sorted_by_name(s: Seq<Artifact>) -> bool {
    forall|i: int, j: int| 0 <= i < j < s.len() ==> !name_lt(s[j].name@, s[i].name@)
}

proof fn lemma_name_lt_transitive(x: Seq<u8>, y: Seq<u8>, z: Seq<u8>)
    requires
        name_lt(x, y),
        name_lt(y, z),
    ensures
        name_lt(x, z),
    decreases x.len(),
{
    if x.len() > 0 && x[0] == y[0] && y[0] == z[0] {
        lemma_name_lt_transitive(x.drop_first(), y.drop_first(), z.drop_first());
    }
}

proof fn lemma_name_lt_irreflexive(x: Seq<u8>)
    ensures
        !name_lt(x, x),
    decreases x.len(),
{
    if x.len() > 0 {
        lemma_name_lt_irreflexive(x.drop_first());
    }
}

/// Whether name `a` comes strictly before name `b`.
pub fn name_less(a: &[u8], b: &[u8]) -> (r: bool)
    ensures
        r == name_lt(a@, b@),
{
    let mut i: usize = 0;
    proof {
        assert(a@.skip(0) =~= a@);
        assert(b@.skip(0) =~= b@);
    }
    while i < a.len() && i < b.len() && a[i] == b[i]
        invariant
            i <= a@.len(),
            i <= b@.len(),
            name_lt(a@, b@) == name_lt(a@.skip(i as int), b@.skip(i as int)),
        decreases a@.len() - i,
    {
        proof {
            assert(a@.skip(i as int).drop_first() =~= a@.skip(i + 1));
            assert(b@.skip(i as int).drop_first() =~= b@.skip(i + 1));
        }
        i = i + 1;
    }
    proof {
        assert(a@.skip(i as int).len() == a@.len() - i);
        assert(b@.skip(i as int).len() == b@.len() - i);
        if i < a@.len() && i < b@.len() {
            assert(a@.skip(i as int)[0] == a@[i as int]);
            assert(b@.skip(i as int)[0] == b@[i as int]);
        }
    }
    if i == a.len() {
        i < b.len()
    } else if i == b.len() {
        false
    } else {
        a[i] < b[i]
    }
}

/// Adds an artifact to a list kept in order of names; among equal names the
/// new one goes last.
fn insert_sorted(list: &mut Vec<Artifact>, a: Artifact)
    requires
        sorted_by_name(old(list)@),
    ensures
        sorted_by_name(final(list)@),
        exists|k: int|
            0 <= k <= old(list)@.len() && final(list)@ == old(list)@.insert(k, a) && (forall|u: int|
                0 <= u < k ==> !name_lt(a.name@, #[trigger] old(list)@[u].name@)) && (k < old(
                list,
            )@.len() ==> name_lt(a.name@, old(list)@[k].name@)),
{
    let mut k: usize = 0;
    while k < list.len() && !name_less(a.name.as_slice(), list[k].name.as_slice())
        invariant
            k <= list@.len(),
            forall|u: int| 0 <= u < k ==> !name_lt(a.name@, #[trigger] list@[u].name@),
        decreases list@.len() - k,
    {
        k = k + 1;
    }
    let ghost before = list@;
    proof {
        if k < before.len() {
            assert(name_lt(a.name@, before[k as int].name@));
        }
    }
    list.insert(k, a);
    proof {
        assert(forall|u: int| 0 <= u < k ==> !name_lt(a.name@, #[trigger] before[u].name@));
        let s = list@;
        assert(s == before.insert(k as int, a));
        assert forall|i: int, j: int| 0 <= i < j < s.len() implies !name_lt(s[j].name@, s[i].name@) by {
            if j < k {
                assert(s[i] == before[i] && s[j] == before[j]);
                assert(!name_lt(before[j].name@, before[i].name@));
            } else if j == k {
                assert(s[i] == before[i]);
                assert(s[j] == a);
                assert(!name_lt(a.name@, before[i].name@));
            } else if i > k {
                assert(s[i] == before[i - 1] && s[j] == before[j - 1]);
                assert(!name_lt(before[j - 1].name@, before[i - 1].name@));
            } else if i == k {
                assert(s[i] == a);
                assert(s[j] == before[j - 1]);
                assert(name_lt(a.name@, before[k as int].name@));
                if j - 1 > k {
                    assert(!name_lt(before[j - 1].name@, before[k as int].name@));
                }
                lemma_name_lt_irreflexive(before[k as int].name@);
                if name_lt(before[j - 1].name@, a.name@) {
                    lemma_name_lt_transitive(before[j - 1].name@, a.name@, before[k as int].name@);
                }
            } else {
                assert(s[i] == before[i] && s[j] == before[j - 1]);
                assert(!name_lt(before[j - 1].name@, before[i].name@));
            }
        }
    }
}

/// Verifier artifacts, kept in order of their names so that the manifest is
/// the same whatever order the directory was listed in.
pub struct ArtifactList {
    items: Vec<Artifact>,
}

impl ArtifactList {
    pub closed spec fn view(&self) -> Seq<Artifact> {
        self.items@
    }

    pub closed spec fn wf(&self) -> bool {
        sorted_by_name(self.items@)
    }

    pub fn new() -> (r: ArtifactList)
        ensures
            r.wf(),
            r@ == Seq::<Artifact>::empty(),
    {
        ArtifactList { items: Vec::new() }
    }

    /// Adds an artifact in its place by name; among equal names the new one
    /// goes last.
    pub fn insert(&mut self, a: Artifact)
        requires
            old(self).wf(),
        ensures
            final(self).wf(),
            exists|k: int|
                0 <= k <= old(self)@.len() && final(self)@ == old(self)@.insert(k, a) && (forall|u: int|
                    0 <= u < k ==> !name_lt(a.name@, #[trigger] old(self)@[u].name@)) && (k < old(
                    self,
                )@.len() ==> name_lt(a.name@, old(self)@[k].name@)),
    {
        let ghost before = self.items@;
        insert_sorted(&mut self.items, a);
        proof {
            let k = choose|k: int|
                0 <= k <= before.len() && self.items@ == before.insert(k, a) && (forall|u: int|
                    0 <= u < k ==> !name_lt(a.name@, #[trigger] before[u].name@)) && (k
                    < before.len() ==> name_lt(a.name@, before[k].name@));
            assert(final(self)@ == old(self)@.insert(k, a));
        }
    }

    pub fn len(&self) -> (r: usize)
        ensures
            r == self@.len(),
    {
        self.items.len()
    }

    /// The artifacts, in order of names.
    pub fn items(&self) -> (r: &Vec<Artifact>)
        requires
            self.wf(),
        ensures
            r@ == self@,
            sorted_by_name(r@),
    {
        &self.items
    }
}

/// A file name with the digest of its bytes.
pub struct ArtifactDigest {
    pub name: Vec<u8>,
    pub digest: Vec<u8>,
}

/// The digest lines that a sequence of artifacts gives.
pub open spec fn artifact_lines(artifacts: Seq<Artifact>) -> Seq<(Seq<u8>, Seq<u8>)> {
    Seq::new(artifacts.len(), |k: int| (sha256_of(artifacts[k].content@), artifacts[k].name@))
}

pub open spec fn digest_lines(ds: Seq<ArtifactDigest>) -> Seq<(Seq<u8>, Seq<u8>)> {
    Seq::new(ds.len(), |k: int| (ds[k].digest@, ds[k].name@))
}

/// Appends one manifest line.
fn push_line(out: &mut Vec<u8>, digest: &[u8], name: &[u8])
    ensures
        final(out)@ == old(out)@ + manifest_line(digest@, name@),
{
    let mut hex = String::new();
    push_hex_text(&mut hex, digest);
    push_bytes(out, hex.as_str().as_bytes());
    out.push(32u8);
    out.push(32u8);
    push_bytes(out, name);
    out.push(10u8);
    proof {
        assert(hex@ =~= hex_chars(digest@));
        assert(final(out)@ =~= old(out)@ + manifest_line(digest@, name@));
    }
}

/// The manifest of a public key and of digests already computed, in the
/// order given.
pub fn manifest_from_digests(public_key: &[u8], digests: &Vec<ArtifactDigest>) -> (r: Vec<u8>)
    ensures
        r@ == manifest_text(public_key@, digest_lines(digests@)),
{
    let mut out: Vec<u8> = Vec::new();
    push_bytes(&mut out, public_key);
    proof {
        assert(out@ =~= public_key@);
        assert(digest_lines(digests@.take(0)) =~= Seq::<(Seq<u8>, Seq<u8>)>::empty());
    }
    let mut j: usize = 0;
    while j < digests.len()
        invariant
            j <= digests@.len(),
            out@ == manifest_text(public_key@, digest_lines(digests@.take(j as int))),
        decreases digests@.len() - j,
    {
        let d = &digests[j];
        push_line(&mut out, d.digest.as_slice(), d.name.as_slice());
        proof {
            let t = digest_lines(digests@.take(j + 1));
            assert(t.drop_last() =~= digest_lines(digests@.take(j as int)));
            assert(t.last() == (d.digest@, d.name@));
        }
        j = j + 1;
    }
    proof {
        assert(digests@.take(digests@.len() as int) =~= digests@);
    }
    out
}

/// The manifest of a public key and of the artifacts, in order of names.
pub fn build_manifest(public_key: &[u8], list: &ArtifactList) -> (r: Vec<u8>)
    requires
        list.wf(),
    ensures
        sorted_by_name(list@),
        r@ == manifest_text(public_key@, artifact_lines(list@)),
{
    let artifacts = list.items();
    let mut ds: Vec<ArtifactDigest> = Vec::new();
    let mut i: usize = 0;
    while i < artifacts.len()
        invariant
            i <= artifacts@.len(),
            digest_lines(ds@) == artifact_lines(artifacts@.take(i as int)),
        decreases artifacts@.len() - i,
    {
        let a = &artifacts[i];
        let d = ArtifactDigest { name: a.name.clone(), digest: sha256(a.content.as_slice()) };
        let ghost before = ds@;
        ds.push(d);
        proof {
            assert(d.name@ == a.name@);
            assert(ds@ == before.push(d));
            assert(artifacts@.take(i + 1) =~= artifacts@.take(i as int).push(*a));
            let l = digest_lines(ds@);
            let r = artifact_lines(artifacts@.take(i + 1));
            assert(digest_lines(before).len() == before.len());
            assert(before.len() == i);
            assert(l.len() == i + 1);
            assert(r.len() == i + 1);
            assert forall|k: int| 0 <= k < l.len() implies l[k] == r[k] by {
                if k < i {
                    assert(l[k] == digest_lines(before)[k]);
                    assert(r[k] == artifact_lines(artifacts@.take(i as int))[k]);
                }
            }
            assert(l =~= r);
        }
        i = i + 1;
    }
    proof {
        assert(artifacts@.take(artifacts@.len() as int) =~= artifacts@);
    }
    manifest_from_digests(public_key, &ds)
}

} // verus!
