//! The catalog of available binaries: built from one listing of a directory
//! tree `<root>/<name>/<system>/<arch>/`, then only read.

use vstd::prelude::*;
use vstd::string::StringExecFns;

verus! {

/// One (operating system, architecture) pair under which a binary exists.
pub struct Platform {
    pub system: String,
    pub arch: String,
}

/// A binary and the platforms it was found for.
pub struct Bin {
    pub name: String,
    pub platforms: Vec<Platform>,
}

/// A third-level directory entry: a candidate architecture.
pub struct ArchEntry {
    pub name: String,
    pub is_dir: bool,
}

/// A second-level directory entry: a candidate operating system.
pub struct SystemEntry {
    pub name: String,
    pub is_dir: bool,
    pub archs: Vec<ArchEntry>,
}

/// A first-level directory entry: a candidate binary name.
pub struct BinEntry {
    pub name: String,
    pub is_dir: bool,
    pub systems: Vec<SystemEntry>,
}

/// The mathematical view of a platform.
pub type PlatformView = (Seq<char>, Seq<char>);

/// The mathematical view of a catalog: each binary name with its set of platforms.
pub type CatalogView = Map<Seq<char>, Set<PlatformView>>;

impl Platform {
    pub open spec fn view(&self) -> PlatformView {
        (self.system@, self.arch@)
    }
}

/// The set of platforms held by a sequence of platform records.
pub open spec fn platform_set(ps: Seq<Platform>) -> Set<PlatformView> {
    Set::new(|p: PlatformView| exists|i: int| 0 <= i < ps.len() && #[trigger] ps[i].view() == p)
}

/// The platforms that the listing of one binary directory shows: each pair of
/// directory names `<system>/<arch>`, where both levels are directories.
pub open spec fn listed_platforms(b: BinEntry) -> Set<PlatformView> {
    Set::new(
        |p: PlatformView|
            exists|j: int, k: int|
                0 <= j < b.systems.len() && b.systems@[j].is_dir && 0 <= k
                    < b.systems@[j].archs.len() && b.systems@[j].archs@[k].is_dir && p == (
                    #[trigger] b.systems@[j].name@,
                    #[trigger] b.systems@[j].archs@[k].name@,
                ),
    )
}

/// Whether a listing holds a first-level directory of the given name.
pub open spec fn listed_name(l: Seq<BinEntry>, n: Seq<char>) -> bool {
    exists|i: int| 0 <= i < l.len() && l[i].is_dir && #[trigger] l[i].name@ == n
}

/// The catalog that a listing of the tree describes: every first-level
/// directory is a binary, with the platforms found under every directory of
/// that name.
pub open spec fn listing_catalog(l: Seq<BinEntry>) -> CatalogView {
    Map::new(
        |n: Seq<char>| listed_name(l, n),
        |n: Seq<char>|
            Set::new(
                |p: PlatformView|
                    exists|i: int|
                        0 <= i < l.len() && l[i].is_dir && #[trigger] l[i].name@ == n
                            && listed_platforms(l[i]).contains(p),
            ),
    )
}

/// The in-memory index of binaries. Names are unique.
pub struct Catalog {
    bins: Vec<Bin>,
}

/// Names in a sequence of binaries are pairwise distinct.
pub open spec fn names_unique(bins: Seq<Bin>) -> bool {
    forall|i: int, j: int|
        0 <= i < bins.len() && 0 <= j < bins.len() && i != j ==> bins[i].name@ != bins[j].name@
}

/// No platform occurs twice.
pub open spec fn distinct_platforms(ps: Seq<Platform>) -> bool {
    forall|i: int, j: int| 0 <= i < ps.len() && 0 <= j < ps.len() && i != j ==> ps[i]@ != ps[j]@
}

/// No binary lists a platform twice.
pub open spec fn platforms_distinct(bins: Seq<Bin>) -> bool {
    forall|i: int| 0 <= i < bins.len() ==> distinct_platforms(#[trigger] bins[i].platforms@)
}

/// The view of a sequence of binaries with distinct names.
pub open spec fn bins_view(bins: Seq<Bin>) -> CatalogView {
    Map::new(
        |n: Seq<char>| exists|i: int| 0 <= i < bins.len() && #[trigger] bins[i].name@ == n,
        |n: Seq<char>|
            Set::new(
                |p: PlatformView|
                    exists|i: int|
                        0 <= i < bins.len() && #[trigger] bins[i].name@ == n && platform_set(
                            bins[i].platforms@,
                        ).contains(p),
            ),
    )
}

/// Adds platforms under a name, creating the entry when the name is new.
pub open spec fn catalog_add(c: CatalogView, n: Seq<char>, ps: Set<PlatformView>) -> CatalogView {
    if c.contains_key(n) {
        c.insert(n, c[n].union(ps))
    } else {
        c.insert(n, ps)
    }
}

impl Catalog {
    pub closed spec fn wf(&self) -> bool {
        names_unique(self.bins@) && platforms_distinct(self.bins@)
    }

    /// The platform list of the binary of that name, in the catalog's order.
    pub closed spec fn platforms_of(&self, n: Seq<char>) -> Seq<Platform> {
        self.bins@[choose|i: int| 0 <= i < self.bins@.len() && #[trigger] self.bins@[i].name@ == n].platforms@
    }

    pub closed spec fn view(&self) -> CatalogView {
        bins_view(self.bins@)
    }

    /// Builds the catalog that a listing of the directory tree describes.
    /// Entries that are not directories are skipped at every level.
    pub fn scan(listing: &Vec<BinEntry>) -> (r: Catalog)
        ensures
            r.wf(),
            r@ == listing_catalog(listing@),
    {
        let mut bins: Vec<Bin> = Vec::new();
        let mut i: usize = 0;
        proof {
            assert(listing_catalog(listing@.take(0)) =~= bins_view(bins@));
        }
        while i < listing.len()
            invariant
                i <= listing@.len(),
                names_unique(bins@),
                platforms_distinct(bins@),
                bins_view(bins@) == listing_catalog(listing@.take(i as int)),
            decreases listing@.len() - i,
        {
            let e = &listing[i];
            proof {
                lemma_listing_push(listing@.take(i as int), *e);
                assert(listing@.take(i as int).push(*e) == listing@.take(i + 1));
            }
            if e.is_dir {
                let ps = collect_platforms(e);
                add_bin(&mut bins, &e.name, ps);
            }
            i = i + 1;
        }
        proof {
            assert(listing@.take(listing@.len() as int) == listing@);
        }
        Catalog { bins }
    }
}

impl Catalog {
    /// The number of binaries.
    pub fn len(&self) -> (r: usize)
        requires
            self.wf(),
        ensures
            r == self@.dom().len(),
    {
        proof {
            lemma_bins_view_dom(self.bins@);
        }
        self.bins.len()
    }

    /// Looks up a binary by name.
    pub fn get(&self, name: &String) -> (r: Option<&Bin>)
        requires
            self.wf(),
        ensures
            r.is_none() <==> !self@.contains_key(name@),
            r matches Some(b) ==> b.name@ == name@ && platform_set(b.platforms@) == self@[name@]
                && b.platforms@ == self.platforms_of(name@) && distinct_platforms(b.platforms@),
    {
        let mut t: usize = 0;
        while t < self.bins.len() && !(self.bins[t].name == *name)
            invariant
                t <= self.bins@.len(),
                forall|u: int| 0 <= u < t ==> self.bins@[u].name@ != name@,
            decreases self.bins@.len() - t,
        {
            t = t + 1;
        }
        if t < self.bins.len() {
            proof {
                lemma_bins_view_at(self.bins@, t as int);
                let i = choose|i: int| 0 <= i < self.bins@.len() && #[trigger] self.bins@[i].name@ == name@;
                assert(self.bins@[t as int].name@ == name@);
                assert(i == t);
            }
            Some(&self.bins[t])
        } else {
            proof {
                if self@.contains_key(name@) {
                    let i = choose|i: int| 0 <= i < self.bins@.len() && #[trigger] self.bins@[i].name@ == name@;
                    assert(self.bins@[i].name@ != name@);
                }
            }
            None
        }
    }

    /// All binaries, each name once.
    pub fn bins(&self) -> (r: &Vec<Bin>)
        requires
            self.wf(),
        ensures
            names_unique(r@),
            platforms_distinct(r@),
            bins_view(r@) == self@,
    {
        &self.bins
    }
}

proof fn lemma_bins_view_dom(bins: Seq<Bin>)
    requires
        names_unique(bins),
    ensures
        bins_view(bins).dom().len() == bins.len(),
        bins_view(bins).dom().finite(),
    decreases bins.len(),
{
    if bins.len() == 0 {
        assert(bins_view(bins).dom() =~= Set::<Seq<char>>::empty());
    } else {
        let init = bins.drop_last();
        assert(names_unique(init)) by {
            assert forall|i: int, j: int|
                0 <= i < init.len() && 0 <= j < init.len() && i != j implies init[i].name@
                != init[j].name@ by {
                assert(bins[i].name@ != bins[j].name@);
            }
        }
        lemma_bins_view_dom(init);
        let last = bins.last();
        assert forall|i: int| 0 <= i < init.len() implies init[i].name@ != last.name@ by {
            assert(bins[i].name@ != bins[bins.len() - 1].name@);
        }
        lemma_bins_push(init, last);
        assert(init.push(last) == bins);
        assert(!bins_view(init).contains_key(last.name@)) by {
            if bins_view(init).contains_key(last.name@) {
                let i = choose|i: int| 0 <= i < init.len() && #[trigger] init[i].name@ == last.name@;
            }
        }
        assert(bins_view(bins).dom() =~= bins_view(init).dom().insert(last.name@));
    }
}

/// The platform list of a binary in the catalog holds each of its platforms
/// exactly once.
pub proof fn lemma_platforms_of(c: &Catalog, n: Seq<char>)
    requires
        c.wf(),
        c@.contains_key(n),
    ensures
        platform_set(c.platforms_of(n)) == c@[n],
        distinct_platforms(c.platforms_of(n)),
{
    let i = choose|i: int| 0 <= i < c.bins@.len() && #[trigger] c.bins@[i].name@ == n;
    lemma_bins_view_at(c.bins@, i);
}

/// The text of one platform: `<system>-<arch>`.
pub open spec fn platform_text(p: Platform) -> Seq<char> {
    p.system@ + seq!['-'] + p.arch@
}

/// The texts of the platforms, joined by `|`.
pub open spec fn platform_list_text(ps: Seq<Platform>) -> Seq<char>
    decreases ps.len(),
{
    if ps.len() == 0 {
        seq![]
    } else if ps.len() == 1 {
        platform_text(ps[0])
    } else {
        platform_list_text(ps.drop_last()) + seq!['|'] + platform_text(ps.last())
    }
}

/// Appends the text of one platform.
pub fn push_platform_text(s: &mut String, p: &Platform)
    ensures
        final(s)@ == old(s)@ + platform_text(*p),
{
    s.append(p.system.as_str());
    proof {
        reveal_strlit("-");
    }
    s.append("-");
    s.append(p.arch.as_str());
    proof {
        assert(final(s)@ =~= old(s)@ + platform_text(*p));
    }
}

/// The platforms of a binary as `<system>-<arch>` texts joined by `|`
/// (empty when it has none).
pub fn format_platform_list(bin: &Bin) -> (r: String)
    ensures
        r@ == platform_list_text(bin.platforms@),
{
    let mut s = String::new();
    let n = bin.platforms.len();
    if n == 0 {
        return s;
    }
    push_platform_text(&mut s, &bin.platforms[0]);
    proof {
        assert(bin.platforms@.take(1).drop_last() =~= Seq::<Platform>::empty());
        assert(s@ =~= platform_list_text(bin.platforms@.take(1)));
    }
    let mut i: usize = 1;
    while i < n
        invariant
            1 <= i <= n,
            n == bin.platforms@.len(),
            s@ == platform_list_text(bin.platforms@.take(i as int)),
        decreases n - i,
    {
        proof {
            reveal_strlit("|");
        }
        s.append("|");
        push_platform_text(&mut s, &bin.platforms[i]);
        proof {
            let t = bin.platforms@.take(i + 1);
            assert(t.drop_last() =~= bin.platforms@.take(i as int));
            assert(t.last() == bin.platforms@[i as int]);
            assert(s@ =~= platform_list_text(t));
        }
        i = i + 1;
    }
    proof {
        assert(bin.platforms@.take(n as int) =~= bin.platforms@);
    }
    s
}

/// The directories of a listed tree, as paths of names: `[name]`,
/// `[name, system]` and `[name, system, arch]`, each level a directory.
pub open spec fn tree_dirs(l: Seq<BinEntry>) -> Set<Seq<Seq<char>>> {
    Set::new(
        |path: Seq<Seq<char>>|
            exists|i: int|
                0 <= i < l.len() && l[i].is_dir && #[trigger] l[i].name@ == path[0] && (
                path.len() == 1 || (exists|j: int|
                    0 <= j < l[i].systems.len() && l[i].systems@[j].is_dir
                        && #[trigger] l[i].systems@[j].name@ == path[1] && (path.len() == 2 || (
                    path.len() == 3 && exists|k: int|
                        0 <= k < l[i].systems@[j].archs.len()
                            && l[i].systems@[j].archs@[k].is_dir
                            && #[trigger] l[i].systems@[j].archs@[k].name@ == path[2])))),
    )
}

proof fn lemma_catalog_of_dirs(l: Seq<BinEntry>)
    ensures
        forall|n: Seq<char>|
            #[trigger] listing_catalog(l).contains_key(n) <==> tree_dirs(l).contains(seq![n]),
        forall|n: Seq<char>, p: PlatformView|
            #[trigger] listing_catalog(l).contains_key(n) ==> (#[trigger] listing_catalog(
                l,
            )[n].contains(p) <==> tree_dirs(l).contains(seq![n, p.0, p.1])),
{
    let c = listing_catalog(l);
    let d = tree_dirs(l);
    assert forall|n: Seq<char>| #[trigger] c.contains_key(n) <==> d.contains(seq![n]) by {
        let path = seq![n];
        if c.contains_key(n) {
            let i = choose|i: int| 0 <= i < l.len() && l[i].is_dir && #[trigger] l[i].name@ == n;
            assert(l[i].name@ == path[0]);
        }
        if d.contains(path) {
            let i = choose|i: int| 0 <= i < l.len() && l[i].is_dir && #[trigger] l[i].name@ == path[0] && (
                path.len() == 1 || (exists|j: int|
                    0 <= j < l[i].systems.len() && l[i].systems@[j].is_dir
                        && #[trigger] l[i].systems@[j].name@ == path[1] && (path.len() == 2 || (
                    path.len() == 3 && exists|k: int|
                        0 <= k < l[i].systems@[j].archs.len()
                            && l[i].systems@[j].archs@[k].is_dir
                            && #[trigger] l[i].systems@[j].archs@[k].name@ == path[2]))));
            assert(l[i].name@ == n);
        }
    }
    assert forall|n: Seq<char>, p: PlatformView|
        #[trigger] c.contains_key(n) implies (#[trigger] c[n].contains(p) <==> d.contains(
            seq![n, p.0, p.1],
        )) by {
        let path = seq![n, p.0, p.1];
        if c[n].contains(p) {
            let i = choose|i: int|
                0 <= i < l.len() && l[i].is_dir && #[trigger] l[i].name@ == n && listed_platforms(
                    l[i],
                ).contains(p);
            let b = l[i];
            let (j, k) = choose|j: int, k: int|
                0 <= j < b.systems.len() && b.systems@[j].is_dir && 0 <= k
                    < b.systems@[j].archs.len() && b.systems@[j].archs@[k].is_dir && p == (
                    #[trigger] b.systems@[j].name@,
                    #[trigger] b.systems@[j].archs@[k].name@,
                );
            assert(l[i].name@ == path[0]);
            assert(l[i].systems@[j].name@ == path[1]);
            assert(l[i].systems@[j].archs@[k].name@ == path[2]);
        }
        if d.contains(path) {
            let i = choose|i: int| 0 <= i < l.len() && l[i].is_dir && #[trigger] l[i].name@ == path[0] && (
                path.len() == 1 || (exists|j: int|
                    0 <= j < l[i].systems.len() && l[i].systems@[j].is_dir
                        && #[trigger] l[i].systems@[j].name@ == path[1] && (path.len() == 2 || (
                    path.len() == 3 && exists|k: int|
                        0 <= k < l[i].systems@[j].archs.len()
                            && l[i].systems@[j].archs@[k].is_dir
                            && #[trigger] l[i].systems@[j].archs@[k].name@ == path[2]))));
            let j = choose|j: int|
                0 <= j < l[i].systems.len() && l[i].systems@[j].is_dir
                    && #[trigger] l[i].systems@[j].name@ == path[1] && (path.len() == 2 || (
                path.len() == 3 && exists|k: int|
                    0 <= k < l[i].systems@[j].archs.len()
                        && l[i].systems@[j].archs@[k].is_dir
                        && #[trigger] l[i].systems@[j].archs@[k].name@ == path[2]));
            let k = choose|k: int|
                0 <= k < l[i].systems@[j].archs.len()
                    && l[i].systems@[j].archs@[k].is_dir
                    && #[trigger] l[i].systems@[j].archs@[k].name@ == path[2];
            assert(l[i].name@ == n);
            assert(listed_platforms(l[i]).contains(p)) by {
                assert(p == (l[i].systems@[j].name@, l[i].systems@[j].archs@[k].name@));
            }
        }
    }
}

/// Scanning does not depend on the order in which the directories were
/// listed: two listings of the same tree give the same catalog.
pub proof fn lemma_scan_order_independent(a: Seq<BinEntry>, b: Seq<BinEntry>)
    requires
        tree_dirs(a) == tree_dirs(b),
    ensures
        listing_catalog(a) == listing_catalog(b),
{
    lemma_catalog_of_dirs(a);
    lemma_catalog_of_dirs(b);
    let ca = listing_catalog(a);
    let cb = listing_catalog(b);
    assert forall|n: Seq<char>| #[trigger] ca.contains_key(n) implies ca[n] =~= cb[n] by {
        assert forall|p: PlatformView| ca[n].contains(p) == cb[n].contains(p) by {
            assert(cb.contains_key(n));
        }
    }
    assert(ca =~= cb);
}

/// Copies a platform record.
fn copy_platform(p: &Platform) -> (r: Platform)
    ensures
        r@ == p@,
{
    Platform { system: p.system.clone(), arch: p.arch.clone() }
}

/// Adds a platform unless it is already listed.
fn push_unique(ps: &mut Vec<Platform>, p: Platform)
    requires
        distinct_platforms(old(ps)@),
    ensures
        distinct_platforms(final(ps)@),
        platform_set(final(ps)@) == platform_set(old(ps)@).insert(p@),
{
    let mut t: usize = 0;
    while t < ps.len() && !(ps[t].system == p.system && ps[t].arch == p.arch)
        invariant
            t <= ps@.len(),
            forall|u: int| 0 <= u < t ==> ps@[u]@ != p@,
        decreases ps@.len() - t,
    {
        t = t + 1;
    }
    if t < ps.len() {
        proof {
            assert(ps@[t as int]@ == p@);
            assert(platform_set(ps@).contains(p@));
            assert(platform_set(ps@).insert(p@) =~= platform_set(ps@));
        }
    } else {
        proof {
            lemma_platform_set_push(ps@, p);
        }
        ps.push(p);
    }
}

proof fn lemma_platform_set_push(ps: Seq<Platform>, x: Platform)
    ensures
        platform_set(ps.push(x)) == platform_set(ps).insert(x@),
{
    let l = platform_set(ps.push(x));
    let r = platform_set(ps).insert(x@);
    assert forall|p: PlatformView| l.contains(p) implies r.contains(p) by {
        let i = choose|i: int| 0 <= i < ps.len() + 1 && #[trigger] ps.push(x)[i].view() == p;
        if i < ps.len() {
            assert(ps[i].view() == p);
        }
    }
    assert forall|p: PlatformView| r.contains(p) implies l.contains(p) by {
        if p == x@ {
            assert(ps.push(x)[ps.len() as int].view() == p);
        } else {
            let i = choose|i: int| 0 <= i < ps.len() && #[trigger] ps[i].view() == p;
            assert(ps.push(x)[i].view() == p);
        }
    }
    assert(l =~= r);
}

/// The platforms of one directory listing: system directories `0..j`, and in
/// system directory `j` the architecture entries `0..k`.
pub open spec fn listed_platforms_upto(b: BinEntry, j: int, k: int) -> Set<PlatformView> {
    Set::new(
        |p: PlatformView|
            exists|jj: int, kk: int|
                0 <= jj < b.systems.len() && b.systems@[jj].is_dir && 0 <= kk
                    < b.systems@[jj].archs.len() && b.systems@[jj].archs@[kk].is_dir && (jj < j
                    || (jj == j && kk < k)) && p == (
                    #[trigger] b.systems@[jj].name@,
                    #[trigger] b.systems@[jj].archs@[kk].name@,
                ),
    )
}

/// Collects the platforms of one binary directory.
fn collect_platforms(e: &BinEntry) -> (r: Vec<Platform>)
    ensures
        platform_set(r@) == listed_platforms(*e),
        distinct_platforms(r@),
{
    let mut ps: Vec<Platform> = Vec::new();
    let mut j: usize = 0;
    proof {
        assert(platform_set(ps@) =~= listed_platforms_upto(*e, 0, 0));
    }
    while j < e.systems.len()
        invariant
            j <= e.systems@.len(),
            platform_set(ps@) == listed_platforms_upto(*e, j as int, 0),
            distinct_platforms(ps@),
        decreases e.systems@.len() - j,
    {
        let sys = &e.systems[j];
        let mut k: usize = 0;
        while k < sys.archs.len()
            invariant
                j < e.systems@.len(),
                *sys == e.systems@[j as int],
                k <= sys.archs@.len(),
                distinct_platforms(ps@),
                sys.is_dir ==> platform_set(ps@) == listed_platforms_upto(*e, j as int, k as int),
                !sys.is_dir ==> platform_set(ps@) == listed_platforms_upto(*e, j as int, 0),
            decreases sys.archs@.len() - k,
        {
            let a = &sys.archs[k];
            if sys.is_dir && a.is_dir {
                let p = Platform { system: sys.name.clone(), arch: a.name.clone() };
                push_unique(&mut ps, p);
                proof {
                    let l = listed_platforms_upto(*e, j as int, k + 1);
                    let r = listed_platforms_upto(*e, j as int, k as int).insert((sys.name@, a.name@));
                    assert forall|q: PlatformView| r.contains(q) implies l.contains(q) by {
                        if q == (sys.name@, a.name@) {
                            assert(q == (e.systems@[j as int].name@, e.systems@[j as int].archs@[k as int].name@));
                        }
                    }
                    assert(l =~= r);
                }
            } else if sys.is_dir {
                proof {
                    let l = listed_platforms_upto(*e, j as int, k + 1);
                    let r = listed_platforms_upto(*e, j as int, k as int);
                    assert(l =~= r);
                }
            }
            k = k + 1;
        }
        proof {
            let l = listed_platforms_upto(*e, j + 1, 0);
            if sys.is_dir {
                let r = listed_platforms_upto(*e, j as int, k as int);
                assert(l =~= r);
            } else {
                let r = listed_platforms_upto(*e, j as int, 0);
                assert(l =~= r);
            }
        }
        j = j + 1;
    }
    proof {
        assert(listed_platforms_upto(*e, j as int, 0) =~= listed_platforms(*e));
    }
    ps
}

proof fn lemma_listing_push(l: Seq<BinEntry>, e: BinEntry)
    ensures
        listing_catalog(l.push(e)) == (if e.is_dir {
            catalog_add(listing_catalog(l), e.name@, listed_platforms(e))
        } else {
            listing_catalog(l)
        }),
{
    let l2 = l.push(e);
    let a = listing_catalog(l2);
    let c = listing_catalog(l);
    let b = if e.is_dir {
        catalog_add(c, e.name@, listed_platforms(e))
    } else {
        c
    };
    assert forall|n: Seq<char>| #[trigger] a.contains_key(n) == b.contains_key(n) by {
        if listed_name(l2, n) {
            let i = choose|i: int| 0 <= i < l2.len() && l2[i].is_dir && #[trigger] l2[i].name@ == n;
            if i < l.len() {
                assert(l[i].name@ == n);
            }
        }
        if listed_name(l, n) {
            let i = choose|i: int| 0 <= i < l.len() && l[i].is_dir && #[trigger] l[i].name@ == n;
            assert(l2[i].name@ == n);
        }
        if e.is_dir && n == e.name@ {
            assert(l2[l.len() as int].name@ == n);
        }
    }
    assert forall|n: Seq<char>| #[trigger] a.contains_key(n) implies a[n] =~= b[n] by {
        assert forall|p: PlatformView| a[n].contains(p) implies b[n].contains(p) by {
            let i = choose|i: int|
                0 <= i < l2.len() && l2[i].is_dir && #[trigger] l2[i].name@ == n && listed_platforms(
                    l2[i],
                ).contains(p);
            if i < l.len() {
                assert(l[i].name@ == n);
            }
        }
        assert forall|p: PlatformView| b[n].contains(p) implies a[n].contains(p) by {
            if c.contains_key(n) && c[n].contains(p) {
                let i = choose|i: int|
                    0 <= i < l.len() && l[i].is_dir && #[trigger] l[i].name@ == n
                        && listed_platforms(l[i]).contains(p);
                assert(l2[i].name@ == n);
            } else {
                assert(l2[l.len() as int].name@ == n);
            }
        }
    }
    assert(a =~= b);
}

proof fn lemma_bins_view_at(bins: Seq<Bin>, t: int)
    requires
        names_unique(bins),
        0 <= t < bins.len(),
    ensures
        bins_view(bins).contains_key(bins[t].name@),
        bins_view(bins)[bins[t].name@] == platform_set(bins[t].platforms@),
{
    let n = bins[t].name@;
    let v = bins_view(bins)[n];
    assert forall|p: PlatformView| v.contains(p) implies platform_set(bins[t].platforms@).contains(p) by {
        let i = choose|i: int|
            0 <= i < bins.len() && #[trigger] bins[i].name@ == n && platform_set(
                bins[i].platforms@,
            ).contains(p);
        assert(i == t);
    }
    assert(v =~= platform_set(bins[t].platforms@));
}

proof fn lemma_bins_update(bins: Seq<Bin>, t: int, b: Bin)
    requires
        names_unique(bins),
        0 <= t < bins.len(),
        b.name@ == bins[t].name@,
    ensures
        names_unique(bins.update(t, b)),
        bins_view(bins.update(t, b)) == bins_view(bins).insert(b.name@, platform_set(b.platforms@)),
{
    let b2 = bins.update(t, b);
    assert forall|i: int, j: int|
        0 <= i < b2.len() && 0 <= j < b2.len() && i != j implies b2[i].name@ != b2[j].name@ by {
        assert(bins[i].name@ != bins[j].name@);
    }
    lemma_bins_view_at(bins, t);
    lemma_bins_view_at(b2, t);
    let l = bins_view(b2);
    let r = bins_view(bins).insert(b.name@, platform_set(b.platforms@));
    assert forall|n: Seq<char>| #[trigger] l.contains_key(n) == r.contains_key(n) by {
        if l.contains_key(n) {
            let i = choose|i: int| 0 <= i < b2.len() && #[trigger] b2[i].name@ == n;
            assert(bins[i].name@ == n);
        }
        if bins_view(bins).contains_key(n) {
            let i = choose|i: int| 0 <= i < bins.len() && #[trigger] bins[i].name@ == n;
            assert(b2[i].name@ == n);
        }
    }
    assert forall|n: Seq<char>| #[trigger] l.contains_key(n) && n != b.name@ implies l[n] =~= r[n] by {
        assert forall|p: PlatformView| l[n].contains(p) implies r[n].contains(p) by {
            let i = choose|i: int|
                0 <= i < b2.len() && #[trigger] b2[i].name@ == n && platform_set(
                    b2[i].platforms@,
                ).contains(p);
            assert(bins[i].name@ == n);
        }
        assert forall|p: PlatformView| r[n].contains(p) implies l[n].contains(p) by {
            let i = choose|i: int|
                0 <= i < bins.len() && #[trigger] bins[i].name@ == n && platform_set(
                    bins[i].platforms@,
                ).contains(p);
            assert(b2[i].name@ == n);
        }
    }
    assert(l =~= r);
}

proof fn lemma_bins_push(bins: Seq<Bin>, b: Bin)
    requires
        names_unique(bins),
        forall|i: int| 0 <= i < bins.len() ==> bins[i].name@ != b.name@,
    ensures
        names_unique(bins.push(b)),
        bins_view(bins.push(b)) == bins_view(bins).insert(b.name@, platform_set(b.platforms@)),
{
    let b2 = bins.push(b);
    assert forall|i: int, j: int|
        0 <= i < b2.len() && 0 <= j < b2.len() && i != j implies b2[i].name@ != b2[j].name@ by {
        if i < bins.len() && j < bins.len() {
            assert(bins[i].name@ != bins[j].name@);
        }
    }
    lemma_bins_view_at(b2, bins.len() as int);
    let l = bins_view(b2);
    let r = bins_view(bins).insert(b.name@, platform_set(b.platforms@));
    assert forall|n: Seq<char>| #[trigger] l.contains_key(n) == r.contains_key(n) by {
        if l.contains_key(n) && n != b.name@ {
            let i = choose|i: int| 0 <= i < b2.len() && #[trigger] b2[i].name@ == n;
            assert(bins[i].name@ == n);
        }
        if bins_view(bins).contains_key(n) {
            let i = choose|i: int| 0 <= i < bins.len() && #[trigger] bins[i].name@ == n;
            assert(b2[i].name@ == n);
        }
        if n == b.name@ {
            assert(b2[bins.len() as int].name@ == n);
        }
    }
    assert forall|n: Seq<char>| #[trigger] l.contains_key(n) && n != b.name@ implies l[n] =~= r[n] by {
        assert forall|p: PlatformView| l[n].contains(p) implies r[n].contains(p) by {
            let i = choose|i: int|
                0 <= i < b2.len() && #[trigger] b2[i].name@ == n && platform_set(
                    b2[i].platforms@,
                ).contains(p);
            assert(bins[i].name@ == n);
        }
        assert forall|p: PlatformView| r[n].contains(p) implies l[n].contains(p) by {
            let i = choose|i: int|
                0 <= i < bins.len() && #[trigger] bins[i].name@ == n && platform_set(
                    bins[i].platforms@,
                ).contains(p);
            assert(b2[i].name@ == n);
        }
    }
    assert(l =~= r);
}

/// Adds the platforms of one binary directory to the entries built so far.
fn add_bin(bins: &mut Vec<Bin>, name: &String, ps: Vec<Platform>)
    requires
        names_unique(old(bins)@),
        platforms_distinct(old(bins)@),
        distinct_platforms(ps@),
    ensures
        names_unique(final(bins)@),
        platforms_distinct(final(bins)@),
        bins_view(final(bins)@) == catalog_add(bins_view(old(bins)@), name@, platform_set(ps@)),
{
    let mut t: usize = 0;
    while t < bins.len() && !(bins[t].name == *name)
        invariant
            t <= bins@.len(),
            forall|u: int| 0 <= u < t ==> bins@[u].name@ != name@,
        decreases bins@.len() - t,
    {
        t = t + 1;
    }
    if t < bins.len() {
        proof {
            lemma_bins_view_at(bins@, t as int);
        }
        let ghost before = bins@;
        let mut b = bins.remove(t);
        let ghost orig = b.platforms@;
        proof {
            assert(distinct_platforms(before[t as int].platforms@));
            assert(platform_set(ps@.take(0)) =~= Set::<PlatformView>::empty());
            assert(platform_set(orig).union(platform_set(ps@.take(0))) =~= platform_set(orig));
        }
        let mut k: usize = 0;
        while k < ps.len()
            invariant
                k <= ps@.len(),
                b.name@ == name@,
                distinct_platforms(b.platforms@),
                platform_set(b.platforms@) == platform_set(orig).union(platform_set(ps@.take(k as int))),
            decreases ps@.len() - k,
        {
            let q = copy_platform(&ps[k]);
            push_unique(&mut b.platforms, q);
            proof {
                assert(ps@.take(k + 1) =~= ps@.take(k as int).push(ps@[k as int]));
                lemma_platform_set_push(ps@.take(k as int), ps@[k as int]);
                assert(platform_set(b.platforms@) =~= platform_set(orig).union(platform_set(ps@.take(k + 1))));
            }
            k = k + 1;
        }
        proof {
            assert(ps@.take(ps@.len() as int) =~= ps@);
        }
        bins.insert(t, b);
        proof {
            assert(bins@ == before.update(t as int, b));
            lemma_bins_update(before, t as int, b);
            assert(bins_view(before)[name@].union(platform_set(ps@)) == platform_set(b.platforms@));
            assert forall|i: int| 0 <= i < bins@.len() implies distinct_platforms(#[trigger] bins@[i].platforms@) by {
                if i != t {
                    assert(bins@[i] == before[i]);
                }
            }
        }
    } else {
        let b = Bin { name: name.clone(), platforms: ps };
        proof {
            lemma_bins_push(bins@, b);
        }
        let ghost before = bins@;
        bins.push(b);
        proof {
            assert forall|i: int| 0 <= i < bins@.len() implies distinct_platforms(#[trigger] bins@[i].platforms@) by {
                if i < before.len() {
                    assert(bins@[i] == before[i]);
                }
            }
        }
    }
}

} // verus!
