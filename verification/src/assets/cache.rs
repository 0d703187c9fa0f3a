//! The import pipeline: what is in `assets/`, and what it became in `.import/`.
//!
//! A [`Catalog`] is the list of source files and the `.meta` beside each one.
//! Scanning is cheap — it reads bytes to hash them and nothing else — so it is
//! also what hot reload is built on: rescan, compare hashes, reimport what
//! moved.
//!
//! Identity lives in the `.meta`. The first import derives an id from the
//! asset's name, so that a project whose `.meta` files were never committed
//! still comes back with the ids its scenes expect; once written, the stored
//! id wins, and renaming is free.
use std::collections::BTreeMap;
use vstd::prelude::*;

use crate::assets::aseprite::Aseprite;
use crate::assets::clip::{ms_to_ticks, ticks_fit, ticks_for, Clip, Frame};
use crate::assets::font::{Font, FontError};
use crate::assets::image::{Image, ImageError};
use crate::assets::sheet::{fits_pair, in_packing_order, laid_apart, pack_fits, pack_framed, packed, Framed, Sheet};
use crate::assets::meta::{
    all_warnings,
    content_hash, default_charset_text, extension, kind_of_extension, last_dot, settings_match,
    settings_of, settings_text, toml_meta, ImportSettings, MetaError, MetaFault, SettingsView, SourceKind, meta_fault_text,
};
use crate::hash::{blake3_digest, hex_text};
use crate::id::{byte_chars, uid_char, AssetId};
use crate::rng::{
    lemma_name_less_asymmetric, lemma_name_less_irreflexive, lemma_name_less_total,
    lemma_name_less_transitive, name_less, name_less_exec, selector_of,
};
use vstd::string::StringSliceAdditionalSpecFns;
use vstd::utf8::encode_utf8;

verus! {

/// Directory sources are read from.
pub const ASSETS_DIR: &'static str = "assets";

/// Largest sheet the importer packs into.
///
/// Well inside the 2048 that downlevel GPU limits guarantee, so a project
/// that renders on a developer's machine also renders on a modest laptop.
pub const MAX_SHEET_WIDTH: u32 = 2048;

// ---------------------------------------------------------------------------
// Names and paths
// ---------------------------------------------------------------------------

/// The name a scene refers to a source by: the path without a leading
/// `assets/` and without the text from its last `.` on.
pub open spec fn asset_name_of(path: Seq<char>) -> Seq<char> {
    let trimmed = if path.len() >= 7 && path.take(7) == "assets/"@ { path.skip(7) } else { path };
    match last_dot(trimmed) {
        Some(d) => trimmed.take(d),
        None => trimmed,
    }
}

/// The name a scene refers to `assets/sprites/hero.png` by: `sprites/hero`.
pub fn asset_name(path: &str) -> (r: String)
    ensures
        r@ == asset_name_of(path@),
{
    let cs = crate::text::chars_of(path);
    let prefix = crate::text::chars_of("assets/");
    proof {
        reveal_strlit("assets/");
    }
    let mut start: usize = 0;
    if cs.len() >= 7 && crate::text::chars_eq(&cs.as_slice()[0..7], prefix.as_slice()) {
        start = 7;
    }
    let ghost trimmed = cs@.skip(start as int);
    proof {
        if start == 0 {
            assert(trimmed =~= cs@);
            if cs@.len() >= 7 {
                assert(cs@.subrange(0, 7) =~= cs@.take(7));
            }
        } else {
            assert(cs@.subrange(0, 7) =~= cs@.take(7));
        }
    }
    // Find the last dot.
    let mut end = cs.len();
    while end > start && cs[end - 1] != '.'
        invariant
            start <= end <= cs@.len(),
            trimmed == cs@.skip(start as int),
            last_dot(trimmed) == last_dot(cs@.subrange(start as int, end as int)),
        decreases end,
    {
        proof {
            assert(cs@.subrange(start as int, end as int).drop_last() =~= cs@.subrange(start as int, end - 1));
        }
        end = end - 1;
    }
    let stop = if end > start { end - 1 } else { cs.len() };
    proof {
        if end > start {
            let t = cs@.subrange(start as int, end as int);
            assert(t.last() == '.');
            assert(last_dot(t) == Some(t.len() - 1));
            assert(trimmed.take(end - 1 - start) =~= cs@.subrange(start as int, end - 1));
        } else {
            assert(cs@.subrange(start as int, end as int).len() == 0);
            assert(cs@.subrange(start as int, cs@.len() as int) =~= trimmed);
        }
    }
    crate::text::string_of(&cs.as_slice()[start..stop])
}

/// Where a source file's sidecar lives: the source path with `.meta`
/// appended.
pub fn meta_path(source: &str) -> (r: String)
    ensures
        r@ == source@ + ".meta"@,
{
    let mut out = crate::text::string_from(source);
    crate::text::push_str(&mut out, ".meta");
    out
}

/// `root` joined with `.import/atlas.png`.
pub open spec fn sheet_path_of(root: Seq<char>) -> Seq<char> {
    if root.len() == 0 || root.last() == '/' {
        root + ".import/atlas.png"@
    } else {
        root + "/.import/atlas.png"@
    }
}

/// Where the cached sheet is written.
pub fn sheet_path(root: &str) -> (r: String)
    ensures
        r@ == sheet_path_of(root@),
{
    let cs = crate::text::chars_of(root);
    let mut out = crate::text::string_from(root);
    if cs.len() == 0 || cs[cs.len() - 1] == '/' {
        crate::text::push_str(&mut out, ".import/atlas.png");
    } else {
        crate::text::push_str(&mut out, "/.import/atlas.png");
    }
    out
}

// ---------------------------------------------------------------------------
// Derived ids
// ---------------------------------------------------------------------------

/// The alphabet a derived id's body is written in: five bits a character.
pub open spec fn derive_alphabet() -> Seq<char> {
    "0123456789abcdefghijklmnopqrstuv"@
}

/// The body derived from 64 bits: the low 40, five at a time from the bottom.
pub open spec fn derived_body(bits: u64) -> Seq<char> {
    Seq::new(8, |i: int| derive_alphabet()[((bits >> (i * 5) as u64) & 31u64) as int])
}

/// Entry `k` of the derivation alphabet, as a byte.
fn derive_byte(k: u64) -> (b: u8)
    requires
        k < 32,
    ensures
        b as char == derive_alphabet()[k as int],
        b < 128,
        uid_char(b as char),
{
    proof {
        reveal_strlit("0123456789abcdefghijklmnopqrstuv");
    }
    if k < 10 {
        48 + k as u8
    } else {
        97 + (k - 10) as u8
    }
}

/// The id a never-before-imported asset starts with: the low 40 bits of the
/// BLAKE3 hash of its name, read little-endian.
///
/// Derived from the name so a project whose `.meta` files were lost comes
/// back with the ids its scenes already reference.
pub fn derive_id(name: &str) -> (r: AssetId)
    ensures
        r.body_chars() == derived_body(selector_of(name.spec_bytes())),
{
    let bits = crate::rng::stream_selector(name);
    let mut body = [0u8; 8];
    let mut i: usize = 0;
    while i < 8
        invariant
            i <= 8,
            body@.len() == 8,
            forall|j: int| 0 <= j < i ==> #[trigger] body@[j] as char == derived_body(bits)[j],
            forall|j: int| 0 <= j < i ==> #[trigger] body@[j] < 128 && uid_char(body@[j] as char),
        decreases 8 - i,
    {
        let k = (bits >> ((i as u64) * 5)) & 31;
        assert(k < 32) by (bit_vector)
            requires
                k == (bits >> ((i as u64) * 5)) & 31,
        ;
        body[i] = derive_byte(k);
        i = i + 1;
    }
    proof {
        assert(byte_chars(body@) =~= derived_body(bits));
    }
    AssetId::from_body(body)
}

// ---------------------------------------------------------------------------
// The catalogue
// ---------------------------------------------------------------------------

/// One source file and what is known about it.
#[derive(Clone, PartialEq, Debug)]
pub struct Entry {
    /// Project-relative path, e.g. `assets/sprites/hero.png`.
    pub path: String,
    /// What a scene calls it: the path under `assets/` without its extension.
    pub name: String,
    /// What kind of file it is.
    pub kind: SourceKind,
    /// Settings from the sidecar.
    pub settings: ImportSettings,
    /// Hash of the bytes currently on disk.
    pub hash: String,
    /// Why the sidecar beside it did not parse, when it is there and does
    /// not. Such an asset keeps fresh settings here, fails to import, and
    /// its sidecar is left as the author wrote it.
    pub meta_error: Option<MetaError>,
}

impl Entry {
    /// Whether the cache is behind the source: the sidecar records no hash,
    /// or another one.
    pub fn is_stale(&self) -> (r: bool)
        ensures
            r == !(self.settings.source_hash matches Some(h) && h@ == self.hash@),
    {
        match &self.settings.source_hash {
            Some(h) => !crate::text::str_eq(h.as_str(), self.hash.as_str()),
            None => true,
        }
    }
}

/// A source file as read from disk: its project-relative path, its bytes,
/// and the text of the `.meta` beside it when there is one to read.
pub struct SourceFile {
    /// Project-relative path, `/`-separated.
    pub path: String,
    /// The file's contents.
    pub bytes: Vec<u8>,
    /// The sidecar's text, if it could be read.
    pub meta: Option<String>,
}

/// The kind a path names, by its extension.
pub open spec fn kind_from_path(p: Seq<char>) -> Option<SourceKind> {
    match extension(p) {
        Some(e) => kind_of_extension(e),
        None => None,
    }
}

/// Which file each name comes from, after the first `n` files: files of no
/// known kind are skipped, and of two files with one name the one whose path
/// sorts last wins (the later one, on equal paths).
pub open spec fn pick(files: Seq<SourceFile>, n: int) -> Map<Seq<char>, int>
    decreases n,
{
    if n <= 0 {
        Map::empty()
    } else {
        let m = pick(files, n - 1);
        let path = files[n - 1].path@;
        match kind_from_path(path) {
            None => m,
            Some(_) => {
                let name = asset_name_of(path);
                if m.contains_key(name) && name_less(path, files[m[name]].path@) {
                    m
                } else {
                    m.insert(name, n - 1)
                }
            },
        }
    }
}

/// Settings as a readable sidecar gives them, or none.
pub open spec fn meta_settings(meta: Option<String>) -> Option<SettingsView> {
    match meta {
        Some(t) => match toml_meta(t@) {
            Ok(d) => match settings_of(d) {
                Ok(v) => Some(v),
                Err(_) => None,
            },
            Err(_) => None,
        },
        None => None,
    }
}

/// Why a sidecar that is there did not parse; none when it parsed or is
/// absent.
pub open spec fn meta_fault(meta: Option<String>) -> Option<MetaFault> {
    match meta {
        Some(t) => match toml_meta(t@) {
            Ok(d) => match settings_of(d) {
                Ok(_) => None,
                Err(f) => Some(f),
            },
            Err(m) => Some(MetaFault::Malformed(m)),
        },
        None => None,
    }
}

/// The settings a new asset named `name` starts with.
pub open spec fn fresh_settings(s: ImportSettings, name: Seq<char>) -> bool {
    &&& s.id.body_chars() == derived_body(selector_of(encode_utf8(name)))
    &&& s.source_hash is None
    &&& s.nearest
    &&& s.atlas
    &&& s.frames == 1
    &&& s.frame_ms == 100
    &&& s.font_size == 16
    &&& s.charset@ == default_charset_text()
    &&& s.clips@.len() == 0
}

/// `e` is what the catalogue records for `f`: the settings its sidecar
/// gives, or fresh ones when the sidecar is absent or does not parse; and,
/// exactly when it is there and does not parse, why.
pub open spec fn entry_of(e: Entry, f: SourceFile) -> bool {
    &&& e.path@ == f.path@
    &&& e.name@ == asset_name_of(f.path@)
    &&& kind_from_path(f.path@) == Some(e.kind)
    &&& e.hash@ == hex_text(blake3_digest(f.bytes@))
    &&& match meta_settings(f.meta) {
        Some(v) => settings_match(e.settings, v),
        None => fresh_settings(e.settings, e.name@),
    }
    &&& match meta_fault(f.meta) {
        Some(fl) => e.meta_error matches Some(err) && err.fault() == fl,
        None => e.meta_error is None,
    }
}

/// Entries in strictly increasing name order.
pub open spec fn names_sorted(s: Seq<Entry>) -> bool {
    forall|i: int, j: int| 0 <= i < j < s.len() ==> name_less(#[trigger] s[i].name@, #[trigger] s[j].name@)
}

/// `entries` is the catalogue of the first `n` files: one entry per name
/// [`pick`] chose, in name order, each made from the file chosen.
pub open spec fn catalog_upto(entries: Seq<Entry>, files: Seq<SourceFile>, n: int) -> bool {
    let chosen = pick(files, n);
    &&& names_sorted(entries)
    &&& forall|i: int|
        0 <= i < entries.len() ==> chosen.contains_key(#[trigger] entries[i].name@) && entry_of(
            entries[i],
            files[chosen[entries[i].name@]],
        )
    &&& forall|name: Seq<char>|
        #[trigger] chosen.contains_key(name) ==> exists|i: int| 0 <= i < entries.len() && entries[i].name@ == name
}

/// `entries` is the catalogue of all of `files`.
pub open spec fn catalog_of(entries: Seq<Entry>, files: Seq<SourceFile>) -> bool {
    catalog_upto(entries, files, files.len() as int)
}

/// What [`pick`] chooses is one of the files seen so far.
proof fn lemma_pick_in_range(files: Seq<SourceFile>, n: int)
    requires
        0 <= n <= files.len(),
    ensures
        forall|name: Seq<char>| #[trigger] pick(files, n).contains_key(name) ==> 0 <= pick(files, n)[name] < n,
        forall|name: Seq<char>|
            #[trigger] pick(files, n).contains_key(name) ==> asset_name_of(files[pick(files, n)[name]].path@) == name,
    decreases n,
{
    if n > 0 {
        lemma_pick_in_range(files, n - 1);
    }
}

/// The entry for `f`.
fn make_entry(f: &SourceFile, kind: SourceKind, name: String) -> (e: Entry)
    requires
        kind_from_path(f.path@) == Some(kind),
        name@ == asset_name_of(f.path@),
    ensures
        entry_of(e, *f),
{
    let (settings, meta_error) = match &f.meta {
        Some(t) => match ImportSettings::parse(t.as_str()) {
            Ok(s) => (s, None),
            Err(e) => (ImportSettings::new(derive_id(name.as_str())), Some(e)),
        },
        None => (ImportSettings::new(derive_id(name.as_str())), None),
    };
    Entry { path: f.path.clone(), name, kind, settings, hash: content_hash(f.bytes.as_slice()), meta_error }
}

/// Every source file in a project, with its settings.
pub struct Catalog {
    root: String,
    entries: Vec<Entry>,
}

impl Catalog {
    /// The entries, in name order.
    pub closed spec fn spec_entries(&self) -> Seq<Entry> {
        self.entries@
    }

    /// The project root the catalogue came from.
    pub closed spec fn spec_root(&self) -> Seq<char> {
        self.root@
    }

    /// Names are unique and in order.
    #[verifier::type_invariant]
    spec fn sorted(self) -> bool {
        names_sorted(self.entries@)
    }

    /// The catalogue of a project's source files.
    ///
    /// `files` is what a scan of `assets/` read: every file there, in any
    /// order. Files of no known kind are skipped; each entry is named by
    /// [`asset_name`], hashed by [`content_hash`], and takes its settings
    /// from its sidecar, or fresh ones with a [`derive_id`] id when there is
    /// none to read.
    pub fn from_files(root: String, files: Vec<SourceFile>) -> (c: Catalog)
        ensures
            c.spec_root() == root@,
            catalog_of(c.spec_entries(), files@),
    {
        let mut entries: Vec<Entry> = Vec::new();
        let mut k: usize = 0;
        while k < files.len()
            invariant
                k <= files@.len(),
                catalog_upto(entries@, files@, k as int),
            decreases files@.len() - k,
        {
            add_file(&mut entries, &files, k);
            k = k + 1;
        }
        Catalog { root, entries }
    }
}

impl Catalog {
    /// The project this catalogue came from.
    pub fn root(&self) -> (r: &str)
        ensures
            r@ == self.spec_root(),
    {
        self.root.as_str()
    }

    /// Every entry, in name order.
    pub fn entries(&self) -> (r: &[Entry])
        ensures
            r@ == self.spec_entries(),
            names_sorted(r@),
    {
        proof {
            use_type_invariant(self);
        }
        self.entries.as_slice()
    }

    /// One entry by the name a scene refers to it by.
    pub fn get(&self, name: &str) -> (r: Option<&Entry>)
        ensures
            match r {
                Some(e) => exists|i: int|
                    0 <= i < self.spec_entries().len() && #[trigger] self.spec_entries()[i] == *e && e.name@
                        == name@,
                None => forall|i: int|
                    0 <= i < self.spec_entries().len() ==> #[trigger] self.spec_entries()[i].name@ != name@,
            },
    {
        let key = crate::text::chars_of(name);
        let mut i: usize = 0;
        while i < self.entries.len()
            invariant
                i <= self.entries@.len(),
                key@ == name@,
                forall|j: int| 0 <= j < i ==> #[trigger] self.entries@[j].name@ != name@,
            decreases self.entries@.len() - i,
        {
            let here = crate::text::chars_of(self.entries[i].name.as_str());
            if crate::text::chars_eq(here.as_slice(), key.as_slice()) {
                return Some(&self.entries[i]);
            }
            i = i + 1;
        }
        None
    }

    /// How many sources there are.
    pub fn len(&self) -> (r: usize)
        ensures
            r == self.spec_entries().len(),
    {
        self.entries.len()
    }

    /// True when the project has no assets.
    pub fn is_empty(&self) -> (r: bool)
        ensures
            r == (self.spec_entries().len() == 0),
    {
        self.entries.len() == 0
    }
}

impl Default for Catalog {
    /// A catalogue of nothing, with no root.
    fn default() -> (c: Catalog)
        ensures
            c.spec_root().len() == 0,
            c.spec_entries().len() == 0,
    {
        Catalog { root: String::new(), entries: Vec::new() }
    }
}

/// The hash recorded under `name`: that of the first entry so named.
pub open spec fn hash_named(s: Seq<Entry>, name: Seq<char>) -> Option<Seq<char>>
    decreases s.len(),
{
    if s.len() == 0 {
        None
    } else if s[0].name@ == name {
        Some(s[0].hash@)
    } else {
        hash_named(s.drop_first(), name)
    }
}

/// The names of `s`, in order.
pub open spec fn names_of(s: Seq<Entry>) -> Seq<Seq<char>> {
    Seq::new(s.len(), |i: int| s[i].name@)
}

/// The names on which two name-ordered entry lists differ, in name order:
/// a name on one side only, or on both with different hashes.
pub open spec fn changed_names(a: Seq<Entry>, b: Seq<Entry>) -> Seq<Seq<char>>
    decreases a.len() + b.len(),
{
    if a.len() == 0 {
        names_of(b)
    } else if b.len() == 0 {
        names_of(a)
    } else if name_less(a[0].name@, b[0].name@) {
        seq![a[0].name@] + changed_names(a.drop_first(), b)
    } else if name_less(b[0].name@, a[0].name@) {
        seq![b[0].name@] + changed_names(a, b.drop_first())
    } else if a[0].hash@ != b[0].hash@ {
        seq![a[0].name@] + changed_names(a.drop_first(), b.drop_first())
    } else {
        changed_names(a.drop_first(), b.drop_first())
    }
}

/// Names in strictly increasing order.
pub open spec fn strictly_sorted(s: Seq<Seq<char>>) -> bool {
    forall|i: int, j: int| 0 <= i < j < s.len() ==> name_less(#[trigger] s[i], #[trigger] s[j])
}

/// The views of some strings.
pub open spec fn views(v: Seq<String>) -> Seq<Seq<char>> {
    Seq::new(v.len(), |i: int| v[i]@)
}

/// A name sorting before the first of sorted entries is not among them.
proof fn lemma_hash_named_before(s: Seq<Entry>, n: Seq<char>)
    requires
        names_sorted(s),
        s.len() > 0 ==> name_less(n, s[0].name@),
    ensures
        hash_named(s, n) is None,
    decreases s.len(),
{
    if s.len() > 0 {
        lemma_name_less_irreflexive(n);
        let t = s.drop_first();
        if t.len() > 0 {
            assert(name_less(s[0].name@, s[1].name@));
            lemma_name_less_transitive(n, s[0].name@, t[0].name@);
        }
        lemma_hash_named_before(t, n);
    }
}

/// A name that is present does not sort before the first entry.
proof fn lemma_hash_named_after(s: Seq<Entry>, n: Seq<char>)
    requires
        names_sorted(s),
        hash_named(s, n) is Some,
    ensures
        s.len() > 0,
        n == s[0].name@ || name_less(s[0].name@, n),
{
    if s.len() > 0 && n != s[0].name@ && !name_less(s[0].name@, n) {
        lemma_name_less_total(s[0].name@, n);
        lemma_hash_named_before(s, n);
    }
}

/// A name is among the names of `s` exactly when `s` records a hash for it.
proof fn lemma_names_of(s: Seq<Entry>, n: Seq<char>)
    ensures
        names_of(s).contains(n) <==> hash_named(s, n) is Some,
    decreases s.len(),
{
    if s.len() > 0 {
        lemma_names_of(s.drop_first(), n);
        assert(names_of(s) =~= seq![s[0].name@] + names_of(s.drop_first()));
        if names_of(s.drop_first()).contains(n) {
            let k = choose|k: int| 0 <= k < names_of(s.drop_first()).len() && names_of(s.drop_first())[k] == n;
            assert(names_of(s)[k + 1] == n);
        }
        if names_of(s).contains(n) && s[0].name@ != n {
            let k = choose|k: int| 0 <= k < names_of(s).len() && names_of(s)[k] == n;
            assert(names_of(s.drop_first())[k - 1] == n);
        }
        if s[0].name@ == n {
            assert(names_of(s)[0] == n);
        }
    }
}

/// Sorted entries have sorted names.
proof fn lemma_names_of_sorted(s: Seq<Entry>)
    requires
        names_sorted(s),
    ensures
        strictly_sorted(names_of(s)),
{
    assert forall|i: int, j: int| 0 <= i < j < names_of(s).len() implies name_less(
        #[trigger] names_of(s)[i],
        #[trigger] names_of(s)[j],
    ) by {
        assert(names_of(s)[i] == s[i].name@);
        assert(names_of(s)[j] == s[j].name@);
    }
}

/// The drop of sorted entries is sorted.
proof fn lemma_sorted_tail(s: Seq<Entry>)
    requires
        names_sorted(s),
        s.len() > 0,
    ensures
        names_sorted(s.drop_first()),
{
    assert forall|i: int, j: int| 0 <= i < j < s.drop_first().len() implies name_less(
        #[trigger] s.drop_first()[i].name@,
        #[trigger] s.drop_first()[j].name@,
    ) by {
        assert(s.drop_first()[i] == s[i + 1]);
        assert(s.drop_first()[j] == s[j + 1]);
    }
}

/// The changed names are exactly the names on which the two lists record
/// different hashes (or a hash on one side only), in strictly increasing
/// order.
proof fn lemma_changed_names(a: Seq<Entry>, b: Seq<Entry>)
    requires
        names_sorted(a),
        names_sorted(b),
    ensures
        forall|n: Seq<char>| changed_names(a, b).contains(n) <==> hash_named(a, n) != hash_named(b, n),
        strictly_sorted(changed_names(a, b)),
    decreases a.len() + b.len(),
{
    let m = changed_names(a, b);
    if a.len() == 0 {
        assert forall|n: Seq<char>| m.contains(n) <==> hash_named(a, n) != hash_named(b, n) by {
            lemma_names_of(b, n);
        }
        lemma_names_of_sorted(b);
    } else if b.len() == 0 {
        assert forall|n: Seq<char>| m.contains(n) <==> hash_named(a, n) != hash_named(b, n) by {
            lemma_names_of(a, n);
        }
        lemma_names_of_sorted(a);
    } else {
        let a0 = a[0].name@;
        let b0 = b[0].name@;
        let a1 = a.drop_first();
        let b1 = b.drop_first();
        lemma_sorted_tail(a);
        lemma_sorted_tail(b);
        if a1.len() > 0 {
            assert(name_less(a[0].name@, a[1].name@));
        }
        if b1.len() > 0 {
            assert(name_less(b[0].name@, b[1].name@));
        }
        if name_less(a0, b0) {
            lemma_changed_names(a1, b);
            let rest = changed_names(a1, b);
            assert(m == seq![a0] + rest);
            lemma_hash_named_before(b, a0);
            lemma_hash_named_before(a1, a0);
            assert forall|n: Seq<char>| m.contains(n) <==> hash_named(a, n) != hash_named(b, n) by {
                if n == a0 {
                    assert(m[0] == n);
                } else {
                    if rest.contains(n) {
                        let k = choose|k: int| 0 <= k < rest.len() && rest[k] == n;
                        assert(m[k + 1] == n);
                    }
                    if m.contains(n) {
                        let k = choose|k: int| 0 <= k < m.len() && m[k] == n;
                        assert(rest[k - 1] == n);
                    }
                }
            }
            assert forall|i: int, j: int| 0 <= i < j < m.len() implies name_less(#[trigger] m[i], #[trigger] m[j]) by {
                if i == 0 {
                    let e = m[j];
                    assert(rest[j - 1] == e);
                    assert(rest.contains(e));
                    if hash_named(a1, e) is Some {
                        lemma_hash_named_after(a1, e);
                        if e != a1[0].name@ {
                            lemma_name_less_transitive(a0, a1[0].name@, e);
                        }
                    } else {
                        lemma_hash_named_after(b, e);
                        if e != b0 {
                            lemma_name_less_transitive(a0, b0, e);
                        }
                    }
                } else {
                    assert(m[i] == rest[i - 1]);
                    assert(m[j] == rest[j - 1]);
                }
            }
        } else if name_less(b0, a0) {
            lemma_changed_names(a, b1);
            let rest = changed_names(a, b1);
            assert(m == seq![b0] + rest);
            lemma_hash_named_before(a, b0);
            lemma_hash_named_before(b1, b0);
            assert forall|n: Seq<char>| m.contains(n) <==> hash_named(a, n) != hash_named(b, n) by {
                if n == b0 {
                    assert(m[0] == n);
                } else {
                    if rest.contains(n) {
                        let k = choose|k: int| 0 <= k < rest.len() && rest[k] == n;
                        assert(m[k + 1] == n);
                    }
                    if m.contains(n) {
                        let k = choose|k: int| 0 <= k < m.len() && m[k] == n;
                        assert(rest[k - 1] == n);
                    }
                }
            }
            assert forall|i: int, j: int| 0 <= i < j < m.len() implies name_less(#[trigger] m[i], #[trigger] m[j]) by {
                if i == 0 {
                    let e = m[j];
                    assert(rest[j - 1] == e);
                    assert(rest.contains(e));
                    if hash_named(b1, e) is Some {
                        lemma_hash_named_after(b1, e);
                        if e != b1[0].name@ {
                            lemma_name_less_transitive(b0, b1[0].name@, e);
                        }
                    } else {
                        lemma_hash_named_after(a, e);
                        if e != a0 {
                            lemma_name_less_transitive(b0, a0, e);
                        }
                    }
                } else {
                    assert(m[i] == rest[i - 1]);
                    assert(m[j] == rest[j - 1]);
                }
            }
        } else {
            if a0 != b0 {
                lemma_name_less_total(a0, b0);
            }
            assert(a0 == b0);
            lemma_changed_names(a1, b1);
            let rest = changed_names(a1, b1);
            lemma_hash_named_before(a1, a0);
            lemma_hash_named_before(b1, a0);
            if a[0].hash@ != b[0].hash@ {
                assert(m == seq![a0] + rest);
                assert forall|n: Seq<char>| m.contains(n) <==> hash_named(a, n) != hash_named(b, n) by {
                    if n == a0 {
                        assert(m[0] == n);
                        assert(hash_named(a, n) == Some(a[0].hash@));
                        assert(hash_named(b, n) == Some(b[0].hash@));
                    } else {
                        assert(hash_named(a, n) == hash_named(a1, n));
                        assert(hash_named(b, n) == hash_named(b1, n));
                        if rest.contains(n) {
                            let k = choose|k: int| 0 <= k < rest.len() && rest[k] == n;
                            assert(m[k + 1] == n);
                        }
                        if m.contains(n) {
                            let k = choose|k: int| 0 <= k < m.len() && m[k] == n;
                            assert(rest[k - 1] == n);
                        }
                    }
                }
                assert forall|i: int, j: int| 0 <= i < j < m.len() implies name_less(#[trigger] m[i], #[trigger] m[j]) by {
                    if i == 0 {
                        let e = m[j];
                        assert(rest[j - 1] == e);
                        assert(rest.contains(e));
                        if hash_named(a1, e) is Some {
                            lemma_hash_named_after(a1, e);
                            if e != a1[0].name@ {
                                lemma_name_less_transitive(a0, a1[0].name@, e);
                            }
                        } else {
                            lemma_hash_named_after(b1, e);
                            if e != b1[0].name@ {
                                lemma_name_less_transitive(a0, b1[0].name@, e);
                            }
                        }
                    } else {
                        assert(m[i] == rest[i - 1]);
                        assert(m[j] == rest[j - 1]);
                    }
                }
            } else {
                assert(m == rest);
                assert forall|n: Seq<char>| m.contains(n) <==> hash_named(a, n) != hash_named(b, n) by {
                    if n == a0 {
                        assert(hash_named(a, n) == Some(a[0].hash@));
                        assert(hash_named(b, n) == Some(b[0].hash@));
                        assert(!rest.contains(n));
                    } else {
                        assert(hash_named(a, n) == hash_named(a1, n));
                        assert(hash_named(b, n) == hash_named(b1, n));
                    }
                }
            }
        }
    }
}

/// Which assets changed is the same question asked from either side: the
/// names on which two catalogues differ do not depend on which came first.
pub proof fn lemma_changed_since_symmetric(a: Seq<Entry>, b: Seq<Entry>)
    ensures
        changed_names(a, b) == changed_names(b, a),
    decreases a.len() + b.len(),
{
    if a.len() == 0 || b.len() == 0 {
    } else {
        let a0 = a[0].name@;
        let b0 = b[0].name@;
        if name_less(a0, b0) {
            lemma_name_less_asymmetric(a0, b0);
            lemma_changed_since_symmetric(a.drop_first(), b);
        } else if name_less(b0, a0) {
            lemma_changed_since_symmetric(a, b.drop_first());
        } else {
            lemma_changed_since_symmetric(a.drop_first(), b.drop_first());
            if a0 != b0 {
                lemma_name_less_total(a0, b0);
            }
        }
    }
}

/// A catalogue compared with itself has changed nowhere.
pub proof fn lemma_unchanged_since_itself(a: Seq<Entry>)
    ensures
        changed_names(a, a).len() == 0,
    decreases a.len(),
{
    if a.len() > 0 {
        lemma_name_less_irreflexive(a[0].name@);
        lemma_unchanged_since_itself(a.drop_first());
    }
}

impl Catalog {
    /// Names whose source bytes differ from `previous`'s, in name order: an
    /// asset added, removed, or whose hash moved.
    ///
    /// This is hot reload's question. It is about content rather than
    /// modification time: a file rewritten byte for byte is no change, and
    /// a file restored from a backup is one.
    pub fn changed_since(&self, previous: &Catalog) -> (r: Vec<String>)
        ensures
            views(r@) == changed_names(self.spec_entries(), previous.spec_entries()),
            strictly_sorted(views(r@)),
            forall|n: Seq<char>|
                views(r@).contains(n) <==> hash_named(self.spec_entries(), n) != hash_named(
                    previous.spec_entries(),
                    n,
                ),
    {
        proof {
            use_type_invariant(self);
            use_type_invariant(previous);
            lemma_changed_names(self.entries@, previous.entries@);
        }
        let a = &self.entries;
        let b = &previous.entries;
        let ghost whole = changed_names(a@, b@);
        let mut out: Vec<String> = Vec::new();
        let mut i: usize = 0;
        let mut j: usize = 0;
        proof {
            assert(a@.skip(0) =~= a@);
            assert(b@.skip(0) =~= b@);
        }
        while i < a.len() || j < b.len()
            invariant
                i <= a@.len(),
                j <= b@.len(),
                views(out@) + changed_names(a@.skip(i as int), b@.skip(j as int)) == whole,
            decreases a@.len() + b@.len() - i - j,
        {
            let ghost sa = a@.skip(i as int);
            let ghost sb = b@.skip(j as int);
            let ghost before = views(out@);
            proof {
                if i < a.len() {
                    assert(sa.drop_first() =~= a@.skip(i + 1));
                }
                if j < b.len() {
                    assert(sb.drop_first() =~= b@.skip(j + 1));
                }
            }
            if j == b.len() {
                proof {
                    assert(names_of(sa) =~= seq![sa[0].name@] + names_of(sa.drop_first()));
                    assert(changed_names(sa.drop_first(), sb) == names_of(sa.drop_first()));
                }
                out.push(a[i].name.clone());
                proof {
                    assert(views(out@) =~= before + seq![sa[0].name@]);
                }
                i = i + 1;
            } else if i == a.len() {
                proof {
                    assert(names_of(sb) =~= seq![sb[0].name@] + names_of(sb.drop_first()));
                    assert(changed_names(sa, sb.drop_first()) == names_of(sb.drop_first()));
                }
                out.push(b[j].name.clone());
                proof {
                    assert(views(out@) =~= before + seq![sb[0].name@]);
                }
                j = j + 1;
            } else {
                let x = crate::text::chars_of(a[i].name.as_str());
                let y = crate::text::chars_of(b[j].name.as_str());
                if name_less_exec(x.as_slice(), y.as_slice()) {
                    out.push(a[i].name.clone());
                    proof {
                        assert(views(out@) =~= before + seq![sa[0].name@]);
                    }
                    i = i + 1;
                } else if name_less_exec(y.as_slice(), x.as_slice()) {
                    out.push(b[j].name.clone());
                    proof {
                        assert(views(out@) =~= before + seq![sb[0].name@]);
                    }
                    j = j + 1;
                } else {
                    if !crate::text::str_eq(a[i].hash.as_str(), b[j].hash.as_str()) {
                        out.push(a[i].name.clone());
                        proof {
                            assert(views(out@) =~= before + seq![sa[0].name@]);
                        }
                    }
                    i = i + 1;
                    j = j + 1;
                }
            }
        }
        proof {
            assert(a@.skip(i as int).len() == 0);
            assert(b@.skip(j as int).len() == 0);
            assert(names_of(b@.skip(j as int)) =~= Seq::<Seq<char>>::empty());
            assert(views(out@) =~= whole);
        }
        out
    }
}

/// Take file `k` into the catalogue of the files before it.
fn add_file(entries: &mut Vec<Entry>, files: &Vec<SourceFile>, k: usize)
    requires
        k < files@.len(),
        catalog_upto(old(entries)@, files@, k as int),
    ensures
        catalog_upto(final(entries)@, files@, k + 1),
{
    let f = &files[k];
    proof {
        lemma_pick_in_range(files@, k as int);
    }
    match SourceKind::of(f.path.as_str()) {
        None => {
            proof {
                assert(pick(files@, k + 1) == pick(files@, k as int));
            }
        },
        Some(kind) => {
            let name = asset_name(f.path.as_str());
            let key = crate::text::chars_of(name.as_str());
            let ghost before = entries@;
            let mut i: usize = 0;
            while i < entries.len()
                invariant
                    i <= entries@.len(),
                    entries@ == before,
                    key@ == name@,
                    forall|j: int| 0 <= j < i ==> name_less(#[trigger] before[j].name@, name@),
                ensures
                    i <= entries@.len(),
                    entries@ == before,
                    forall|j: int| 0 <= j < i ==> name_less(#[trigger] before[j].name@, name@),
                    i < entries@.len() ==> !name_less(before[i as int].name@, name@),
                decreases entries@.len() - i,
            {
                let here = crate::text::chars_of(entries[i].name.as_str());
                if !name_less_exec(here.as_slice(), key.as_slice()) {
                    break;
                }
                i = i + 1;
            }
            let found = if i < entries.len() {
                let here = crate::text::chars_of(entries[i].name.as_str());
                crate::text::chars_eq(here.as_slice(), key.as_slice())
            } else {
                false
            };
            if found {
                let path = crate::text::chars_of(f.path.as_str());
                let there = crate::text::chars_of(entries[i].path.as_str());
                if name_less_exec(path.as_slice(), there.as_slice()) {
                    proof {
                        lemma_keep_entry(before, files@, k as int, i as int);
                    }
                } else {
                    let e = make_entry(f, kind, name);
                    proof {
                        lemma_replace_entry(before, files@, k as int, i as int, e);
                    }
                    entries.set(i, e);
                }
            } else {
                let e = make_entry(f, kind, name);
                proof {
                    lemma_insert_entry(before, files@, k as int, i as int, e);
                }
                entries.insert(i, e);
            }
        },
    }
}

/// A file whose name is taken by a file with a later path changes nothing.
proof fn lemma_keep_entry(before: Seq<Entry>, files: Seq<SourceFile>, k: int, i: int)
    requires
        0 <= k < files.len(),
        catalog_upto(before, files, k),
        0 <= i < before.len(),
        kind_from_path(files[k].path@) is Some,
        before[i].name@ == asset_name_of(files[k].path@),
        name_less(files[k].path@, before[i].path@),
    ensures
        catalog_upto(before, files, k + 1),
{
    assert(pick(files, k + 1) == pick(files, k));
}

/// A file whose name is taken by a file with an earlier path takes its place.
proof fn lemma_replace_entry(before: Seq<Entry>, files: Seq<SourceFile>, k: int, i: int, e: Entry)
    requires
        0 <= k < files.len(),
        catalog_upto(before, files, k),
        0 <= i < before.len(),
        kind_from_path(files[k].path@) is Some,
        before[i].name@ == e.name@,
        entry_of(e, files[k]),
        !name_less(files[k].path@, before[i].path@),
    ensures
        catalog_upto(before.update(i, e), files, k + 1),
{
    let chosen = pick(files, k);
    let after = pick(files, k + 1);
    let name = e.name@;
    let now = before.update(i, e);
    assert(after == chosen.insert(name, k));
    assert forall|a: int, b: int| 0 <= a < b < now.len() implies name_less(
        #[trigger] now[a].name@,
        #[trigger] now[b].name@,
    ) by {
        assert(now[a].name@ == before[a].name@);
        assert(now[b].name@ == before[b].name@);
    }
    assert forall|n2: Seq<char>| #[trigger] after.contains_key(n2) implies exists|j: int|
        0 <= j < now.len() && now[j].name@ == n2 by {
        if n2 == name {
            assert(now[i].name@ == n2);
        } else {
            assert(chosen.contains_key(n2));
            let j = choose|j: int| 0 <= j < before.len() && before[j].name@ == n2;
            assert(now[j].name@ == n2);
        }
    }
    assert forall|j: int| 0 <= j < now.len() implies after.contains_key(#[trigger] now[j].name@) && entry_of(
        now[j],
        files[after[now[j].name@]],
    ) by {
        if j != i {
            assert(now[j] == before[j]);
            if before[j].name@ == name {
                assert(name_less(before[j].name@, before[i].name@) || name_less(before[i].name@, before[j].name@));
                lemma_name_less_irreflexive(name);
            }
        }
    }
}

/// A file with a new name goes in where its name sorts.
proof fn lemma_insert_entry(before: Seq<Entry>, files: Seq<SourceFile>, k: int, i: int, e: Entry)
    requires
        0 <= k < files.len(),
        catalog_upto(before, files, k),
        0 <= i <= before.len(),
        kind_from_path(files[k].path@) is Some,
        entry_of(e, files[k]),
        forall|j: int| 0 <= j < i ==> name_less(#[trigger] before[j].name@, e.name@),
        i < before.len() ==> !name_less(before[i].name@, e.name@) && before[i].name@ != e.name@,
    ensures
        catalog_upto(before.insert(i, e), files, k + 1),
{
    let chosen = pick(files, k);
    let after = pick(files, k + 1);
    let name = e.name@;
    let now = before.insert(i, e);
    assert forall|j: int| i <= j < before.len() implies name_less(name, #[trigger] before[j].name@) by {
        let here = before[i].name@;
        lemma_name_less_total(here, name);
        if j > i {
            lemma_name_less_transitive(name, here, before[j].name@);
        }
    }
    assert forall|j: int| 0 <= j < before.len() implies #[trigger] before[j].name@ != name by {
        lemma_name_less_irreflexive(name);
    }
    assert(!chosen.contains_key(name));
    assert(after == chosen.insert(name, k));
    assert forall|a: int, b: int| 0 <= a < b < now.len() implies name_less(
        #[trigger] now[a].name@,
        #[trigger] now[b].name@,
    ) by {
        if b < i {
        } else if b == i {
        } else if a < i {
            assert(now[b] == before[b - 1]);
            lemma_name_less_transitive(now[a].name@, name, now[b].name@);
        } else if a == i {
            assert(now[b] == before[b - 1]);
        } else {
            assert(now[a] == before[a - 1]);
            assert(now[b] == before[b - 1]);
        }
    }
    assert forall|n2: Seq<char>| #[trigger] after.contains_key(n2) implies exists|j: int|
        0 <= j < now.len() && now[j].name@ == n2 by {
        if n2 == name {
            assert(now[i].name@ == n2);
        } else {
            assert(chosen.contains_key(n2));
            let j = choose|j: int| 0 <= j < before.len() && before[j].name@ == n2;
            if j < i {
                assert(now[j].name@ == n2);
            } else {
                assert(now[j + 1].name@ == n2);
            }
        }
    }
    assert forall|j: int| 0 <= j < now.len() implies after.contains_key(#[trigger] now[j].name@) && entry_of(
        now[j],
        files[after[now[j].name@]],
    ) by {
        if j < i {
            assert(now[j] == before[j]);
        } else if j > i {
            assert(now[j] == before[j - 1]);
        }
    }
}

// ---------------------------------------------------------------------------
// Import
// ---------------------------------------------------------------------------

/// What one source imported to.
#[derive(Clone, PartialEq, Debug)]
pub enum Artifact {
    /// A still image.
    Image(Image),
    /// A sprite strip and the clips that index into it.
    Animation {
        /// Every frame, laid out in one horizontal strip.
        sheet: Image,
        /// Width of one frame, in pixels.
        frame_width: u32,
        /// Height of one frame, in pixels.
        frame_height: u32,
        /// How many frames the strip holds.
        frame_count: u32,
        /// Named clips.
        clips: Vec<Clip>,
    },
    /// An audio clip, left encoded: decoding is the audio backend's job and
    /// happens when the sound is first played.
    Audio {
        /// Bytes as they are on disk.
        bytes: Vec<u8>,
    },
    /// An LDtk project, which is read when a level is baked rather than
    /// cached.
    Level,
    /// A baked font: its metrics and its glyph page.
    Font {
        /// The metric table.
        font: Font,
        /// The glyph page.
        page: Image,
    },
}

/// What reading one source gave, before import: decoded pixels, a read
/// Aseprite document, the bytes of a sound, nothing for a level, or a baked
/// font.
pub enum Loaded {
    /// A decoded PNG.
    Png(Image),
    /// A read Aseprite document.
    Aseprite(Aseprite),
    /// A sound's bytes.
    Audio(Vec<u8>),
    /// An LDtk project, read later.
    Level,
    /// A baked font and its page.
    Font(Font, Image),
}

/// Why a source could not be read.
#[derive(Debug, Clone, PartialEq, Eq)]
pub enum LoadError {
    /// The image could not be read or decoded.
    Image(ImageError),
    /// The font could not be baked.
    Font(FontError),
}

impl LoadError {
    /// The human-readable message: the underlying error's own.
    pub fn message(&self) -> (out: String)
        ensures
            out@ == load_error_text(*self),
    {
        match self {
            LoadError::Image(e) => e.message(),
            LoadError::Font(e) => e.message(),
        }
    }
}

/// The message of a load error.
pub open spec fn load_error_text(e: LoadError) -> Seq<char> {
    match e {
        LoadError::Image(ImageError::Io { path, detail }) => "cannot read "@ + path@ + ": "@ + detail@,
        LoadError::Image(ImageError::Decode { path, detail }) => "cannot decode "@ + path@ + ": "@ + detail@,
        LoadError::Font(FontError::Unreadable(m)) => "not a readable font: "@ + m@,
        LoadError::Font(FontError::Size(n)) => "font size "@ + crate::decimal::decimal(n as nat)
            + " is not usable; pick something between 4 and 512"@,
    }
}

/// Artifacts by asset name.
pub type ArtifactMap = BTreeMap<String, Artifact>;

/// What an artifact map holds: each name's artifact.
pub uninterp spec fn artifacts_of(m: ArtifactMap) -> Map<Seq<char>, Artifact>;

/// `BTreeMap::new` for artifacts: empty.
#[verifier::external_body]
fn artifacts_new() -> (m: ArtifactMap)
    ensures
        artifacts_of(m).dom() == Set::<Seq<char>>::empty(),
{
    BTreeMap::new()
}

/// `BTreeMap::insert` for artifacts: `name` now maps to `a`, and no other
/// name changes.
#[verifier::external_body]
fn artifacts_insert(m: &mut ArtifactMap, name: String, a: Artifact)
    ensures
        artifacts_of(*final(m)) == artifacts_of(*old(m)).insert(name@, a),
{
    m.insert(name, a);
}

/// `BTreeMap::get` for artifacts: the artifact recorded under `name`.
#[verifier::external_body]
fn artifacts_get<'a>(m: &'a ArtifactMap, name: &str) -> (r: Option<&'a Artifact>)
    ensures
        r == (if artifacts_of(*m).contains_key(name@) { Some(&artifacts_of(*m)[name@]) } else { None }),
{
    m.get(name)
}

/// The frames of a strip clip: `n` frames from `from` on, each held `ticks`,
/// none with an event.
pub open spec fn held_frames(frames: Seq<Frame>, from: int, ticks: u32, n: int) -> bool {
    &&& frames.len() == n
    &&& forall|k: int|
        0 <= k < n ==> (#[trigger] frames[k]).index == from + k && frames[k].ticks == ticks && frames[k].event is None
}

/// The clips a strip of `frames` frames gets: one looping `default` clip over
/// every frame when the sidecar names none, else one per named range, each
/// held at its own `frame_ms` or the sheet's.
pub open spec fn strip_clips_ok(clips: Seq<Clip>, s: ImportSettings, frames: u32, rate: u32) -> bool {
    if s.clips@.len() == 0 {
        &&& clips.len() == 1
        &&& clips[0].name@ == "default"@
        &&& clips[0].looping
        &&& held_frames(clips[0].frames@, 0, ticks_for(s.frame_ms as int, rate as int), frames as int)
    } else {
        &&& clips.len() == s.clips@.len()
        &&& forall|k: int|
            0 <= k < clips.len() ==> {
                let r = s.clips@[k];
                let ms = match r.frame_ms {
                    Some(m) => m,
                    None => s.frame_ms,
                };
                &&& (#[trigger] clips[k]).name@ == r.name@
                &&& clips[k].looping == r.looping
                &&& held_frames(
                    clips[k].frames@,
                    r.from as int,
                    ticks_for(ms as int, rate as int),
                    if r.to >= r.from { r.to - r.from + 1 } else { 0 },
                )
            }
    }
}

/// `n` frames from `from`, each held `ticks`.
fn strip_frames(from: u32, n: u64, ticks: u32) -> (out: Vec<Frame>)
    requires
        from + n <= u32::MAX + 1,
    ensures
        held_frames(out@, from as int, ticks, n as int),
{
    let mut out: Vec<Frame> = Vec::new();
    let mut k: u64 = 0;
    while k < n
        invariant
            k <= n,
            from + n <= u32::MAX + 1,
            held_frames(out@, from as int, ticks, k as int),
        decreases n - k,
    {
        out.push(Frame { index: (from as u64 + k) as u32, ticks, event: None });
        k = k + 1;
    }
    out
}

/// How long clip `k` of a strip holds each frame: its own `frame_ms`, or
/// the sheet's.
pub open spec fn clip_ms(s: ImportSettings, k: int) -> u32 {
    match s.clips@[k].frame_ms {
        Some(m) => m,
        None => s.frame_ms,
    }
}

/// Every duration a strip's clips use converts to ticks at `rate`: the
/// sheet's `frame_ms` when the sidecar names no clips, else each clip's.
pub open spec fn strip_ticks_fit(s: ImportSettings, rate: u32) -> bool {
    if s.clips@.len() == 0 {
        ticks_fit(s.frame_ms as int, rate as int)
    } else {
        forall|k: int| 0 <= k < s.clips@.len() ==> ticks_fit(#[trigger] clip_ms(s, k) as int, rate as int)
    }
}

/// The clips of a strip of `frames` frames.
fn strip_clips(s: &ImportSettings, frames: u32, tick_rate: u32) -> (out: Vec<Clip>)
    requires
        tick_rate > 0,
        strip_ticks_fit(*s, tick_rate),
    ensures
        strip_clips_ok(out@, *s, frames, tick_rate),
{
    let mut out: Vec<Clip> = Vec::new();
    if s.clips.len() == 0 {
        let ticks = ms_to_ticks(s.frame_ms, tick_rate);
        let name = crate::text::string_from("default");
        out.push(Clip { name, frames: strip_frames(0, frames as u64, ticks), looping: true });
        return out;
    }
    let mut k: usize = 0;
    while k < s.clips.len()
        invariant
            k <= s.clips@.len(),
            s.clips@.len() > 0,
            tick_rate > 0,
            strip_ticks_fit(*s, tick_rate),
            out@.len() == k,
            forall|j: int|
                0 <= j < k ==> {
                    let r = s.clips@[j];
                    let ms = match r.frame_ms {
                        Some(m) => m,
                        None => s.frame_ms,
                    };
                    &&& (#[trigger] out@[j]).name@ == r.name@
                    &&& out@[j].looping == r.looping
                    &&& held_frames(
                        out@[j].frames@,
                        r.from as int,
                        ticks_for(ms as int, tick_rate as int),
                        if r.to >= r.from { r.to - r.from + 1 } else { 0 },
                    )
                },
        decreases s.clips@.len() - k,
    {
        let r = &s.clips[k];
        let ms = match r.frame_ms {
            Some(m) => m,
            None => s.frame_ms,
        };
        assert(ms == clip_ms(*s, k as int));
        let ticks = ms_to_ticks(ms, tick_rate);
        let n: u64 = if r.to >= r.from { r.to as u64 - r.from as u64 + 1 } else { 0 };
        out.push(Clip { name: r.name.clone(), frames: strip_frames(r.from, n, ticks), looping: r.looping });
        k = k + 1;
    }
    out
}

/// An image renamed.
pub open spec fn renamed(img: Image, name: String) -> Image {
    Image { name, width: img.width, height: img.height, pixels: img.pixels }
}

/// The frame count a PNG's sidecar declares, at least one.
pub open spec fn strip_count(s: ImportSettings) -> u32 {
    if s.frames > 1 { s.frames } else { 1 }
}

/// What `entry` imports to, given what reading it gave.
///
/// A PNG becomes a still, or, when its sidecar calls it a strip of several
/// frames, an animation whose clips are [`strip_clips_ok`]. An Aseprite
/// document becomes its strip and clips; a sound keeps its bytes; a font
/// keeps its page and metrics.
pub open spec fn imports_to(e: Entry, l: Loaded, rate: u32, a: Artifact) -> bool {
    match l {
        Loaded::Png(img) => {
            let frames = strip_count(e.settings);
            let sheet = renamed(img, e.name);
            if frames == 1 {
                a == Artifact::Image(sheet)
            } else {
                &&& a matches Artifact::Animation { sheet: s2, frame_width, frame_height, frame_count, clips }
                &&& s2 == sheet
                &&& frame_width == img.width / frames
                &&& frame_height == img.height
                &&& frame_count == frames
                &&& strip_clips_ok(clips@, e.settings, frames, rate)
            }
        },
        Loaded::Aseprite(x) => a == Artifact::Animation {
            sheet: x.sheet,
            frame_width: x.frame_width,
            frame_height: x.frame_height,
            frame_count: x.frame_count,
            clips: x.clips,
        },
        Loaded::Audio(bytes) => a == Artifact::Audio { bytes },
        Loaded::Level => a == Artifact::Level,
        Loaded::Font(font, page) => a == Artifact::Font { font, page },
    }
}

/// Import one source.
pub fn import_one(entry: &Entry, loaded: Loaded, tick_rate: u32) -> (a: Artifact)
    requires
        tick_rate > 0,
        loaded is Png && strip_count(entry.settings) > 1 ==> strip_ticks_fit(entry.settings, tick_rate),
    ensures
        imports_to(*entry, loaded, tick_rate, a),
{
    match loaded {
        Loaded::Png(img) => {
            let mut image = img;
            image.name = entry.name.clone();
            let frames = if entry.settings.frames > 1 { entry.settings.frames } else { 1 };
            if frames == 1 {
                return Artifact::Image(image);
            }
            let width = image.width / frames;
            let height = image.height;
            let clips = strip_clips(&entry.settings, frames, tick_rate);
            Artifact::Animation { sheet: image, frame_width: width, frame_height: height, frame_count: frames, clips }
        },
        Loaded::Aseprite(x) => Artifact::Animation {
            sheet: x.sheet,
            frame_width: x.frame_width,
            frame_height: x.frame_height,
            frame_count: x.frame_count,
            clips: x.clips,
        },
        Loaded::Audio(bytes) => Artifact::Audio { bytes },
        Loaded::Level => Artifact::Level,
        Loaded::Font(font, page) => Artifact::Font { font, page },
    }
}

/// An image to pack, as plain values.
pub struct FramedView {
    /// The asset's name.
    pub name: Seq<char>,
    /// Width in pixels.
    pub width: u32,
    /// Height in pixels.
    pub height: u32,
    /// RGBA pixels.
    pub pixels: Seq<u8>,
    /// Frames side by side.
    pub frames: u32,
}

/// An image to pack, seen as plain values.
pub open spec fn framed_view(f: Framed) -> FramedView {
    FramedView { name: f.image.name@, width: f.image.width, height: f.image.height, pixels: f.image.pixels@, frames: f.frames }
}

/// The views of images to pack.
pub open spec fn framed_views(p: Seq<Framed>) -> Seq<FramedView> {
    Seq::new(p.len(), |i: int| framed_view(p[i]))
}

/// What `e` puts on the shared sheet: its pixels under its own name, when
/// its sidecar asks for the atlas and it imported to a still or a strip.
pub open spec fn packable_of(e: Entry, l: Loaded) -> Option<FramedView> {
    if !e.settings.atlas {
        None
    } else {
        match l {
            Loaded::Png(img) => Some(
                FramedView {
                    name: e.name@,
                    width: img.width,
                    height: img.height,
                    pixels: img.pixels@,
                    frames: strip_count(e.settings),
                },
            ),
            Loaded::Aseprite(x) => Some(
                FramedView {
                    name: e.name@,
                    width: x.sheet.width,
                    height: x.sheet.height,
                    pixels: x.sheet.pixels@,
                    frames: x.frame_count,
                },
            ),
            _ => None,
        }
    }
}

/// Everything the first `n` sources put on the sheet, in catalogue order.
pub open spec fn packables(es: Seq<Entry>, ls: Seq<Result<Loaded, LoadError>>, n: int) -> Seq<FramedView>
    decreases n,
{
    if n <= 0 {
        Seq::empty()
    } else {
        packables(es, ls, n - 1) + if es[n - 1].meta_error is Some {
            Seq::empty()
        } else {
            match ls[n - 1] {
                Ok(l) => match packable_of(es[n - 1], l) {
                    Some(v) => seq![v],
                    None => Seq::empty(),
                },
                Err(_) => Seq::empty(),
            }
        }
    }
}

/// Whether a strip's clip durations all convert to ticks at `rate`.
fn strip_converts(s: &ImportSettings, rate: u32) -> (r: bool)
    ensures
        r == strip_ticks_fit(*s, rate),
{
    if s.clips.len() == 0 {
        return crate::assets::aseprite::converts(s.frame_ms, rate);
    }
    let mut k: usize = 0;
    while k < s.clips.len()
        invariant
            k <= s.clips@.len(),
            s.clips@.len() > 0,
            forall|j: int| 0 <= j < k ==> ticks_fit(#[trigger] clip_ms(*s, j) as int, rate as int),
        decreases s.clips@.len() - k,
    {
        let ms = match s.clips[k].frame_ms {
            Some(m) => m,
            None => s.frame_ms,
        };
        assert(ms == clip_ms(*s, k as int));
        if !crate::assets::aseprite::converts(ms, rate) {
            return false;
        }
        k = k + 1;
    }
    true
}

/// Whether every PNG strip that would import has clip durations that
/// convert to ticks at `rate`, as [`import`] needs.
pub fn strips_convert(catalog: &Catalog, loaded: &Vec<Result<Loaded, LoadError>>, rate: u32) -> (r: bool)
    requires
        loaded@.len() == catalog.spec_entries().len(),
    ensures
        r == strips_fit(catalog.spec_entries(), loaded@, rate),
{
    let entries = catalog.entries();
    let ghost es = entries@;
    let ghost ls = loaded@;
    let mut i: usize = 0;
    while i < entries.len()
        invariant
            i <= es.len(),
            es == entries@,
            es == catalog.spec_entries(),
            ls == loaded@,
            ls.len() == es.len(),
            forall|k: int|
                0 <= k < i && #[trigger] loads(es, ls, k) && ls[k]->Ok_0 is Png && strip_count(es[k].settings) > 1
                    ==> strip_ticks_fit(es[k].settings, rate),
        decreases es.len() - i,
    {
        let e = &entries[i];
        let strip = match &loaded[i] {
            Ok(Loaded::Png(_)) => e.meta_error.is_none() && e.settings.frames > 1,
            _ => false,
        };
        if strip && !strip_converts(&e.settings, rate) {
            proof {
                assert(loads(es, ls, i as int));
                assert(ls[i as int]->Ok_0 is Png);
                assert(!strip_ticks_fit(es[i as int].settings, rate));
            }
            return false;
        }
        proof {
            if loads(es, ls, i as int) && ls[i as int]->Ok_0 is Png && strip_count(es[i as int].settings) > 1 {
                assert(strip);
            }
        }
        i = i + 1;
    }
    true
}

/// Whether the images an import would put on the sheet fit the packer's
/// arithmetic, as [`import`] needs.
pub fn packables_fit(catalog: &Catalog, loaded: &Vec<Result<Loaded, LoadError>>) -> (r: bool)
    requires
        loaded@.len() == catalog.spec_entries().len(),
    ensures
        r == views_fit(packables(catalog.spec_entries(), loaded@, loaded@.len() as int)),
{
    let entries = catalog.entries();
    let ghost es = entries@;
    let ghost ls = loaded@;
    let mut sizes: Vec<(u32, u32)> = Vec::new();
    let mut i: usize = 0;
    while i < entries.len()
        invariant
            i <= es.len(),
            es == entries@,
            es == catalog.spec_entries(),
            ls == loaded@,
            ls.len() == es.len(),
            sizes@.len() == packables(es, ls, i as int).len(),
            forall|m: int|
                0 <= m < sizes@.len() ==> (#[trigger] sizes@[m]).0 == packables(es, ls, i as int)[m].width && sizes@[m].1
                    == packables(es, ls, i as int)[m].height,
        decreases es.len() - i,
    {
        let e = &entries[i];
        let ghost before = packables(es, ls, i as int);
        let size = if e.meta_error.is_some() || !e.settings.atlas {
            None
        } else {
            match &loaded[i] {
                Ok(Loaded::Png(img)) => Some((img.width, img.height)),
                Ok(Loaded::Aseprite(x)) => Some((x.sheet.width, x.sheet.height)),
                _ => None,
            }
        };
        match size {
            Some(wh) => {
                sizes.push(wh);
            },
            None => {},
        }
        proof {
            let after = packables(es, ls, i + 1);
            assert(after == before + if es[i as int].meta_error is Some {
                Seq::empty()
            } else {
                match ls[i as int] {
                    Ok(l) => match packable_of(es[i as int], l) {
                        Some(v) => seq![v],
                        None => Seq::<FramedView>::empty(),
                    },
                    Err(_) => Seq::empty(),
                }
            });
            assert forall|m: int| 0 <= m < sizes@.len() implies (#[trigger] sizes@[m]).0 == after[m].width && sizes@[m].1 == after[m].height by {
                if m < before.len() {
                    assert(after[m] == before[m]);
                }
            }
        }
        i = i + 1;
    }
    let ghost v = packables(es, ls, ls.len() as int);
    let n = sizes.len();
    let mut a: usize = 0;
    while a < n
        invariant
            a <= n,
            v == packables(catalog.spec_entries(), loaded@, loaded@.len() as int),
            n == sizes@.len(),
            n == v.len(),
            forall|m: int| 0 <= m < n ==> (#[trigger] sizes@[m]).0 == v[m].width && sizes@[m].1 == v[m].height,
            forall|i: int, j: int| 0 <= i < a && 0 <= j < n ==> #[trigger] pair_fits(n as int, v[i], v[j]),
        decreases n - a,
    {
        let mut b: usize = 0;
        while b < n
            invariant
                a < n,
                b <= n,
                v == packables(catalog.spec_entries(), loaded@, loaded@.len() as int),
                n == sizes@.len(),
                n == v.len(),
                forall|m: int| 0 <= m < n ==> (#[trigger] sizes@[m]).0 == v[m].width && sizes@[m].1 == v[m].height,
                forall|i: int, j: int| 0 <= i < a && 0 <= j < n ==> #[trigger] pair_fits(n as int, v[i], v[j]),
                forall|j: int| 0 <= j < b ==> #[trigger] pair_fits(n as int, v[a as int], v[j]),
            decreases n - b,
        {
            let (wi, hi) = sizes[a];
            let hj = sizes[b].1;
            proof {
                assert(sizes@[a as int].0 == v[a as int].width && sizes@[a as int].1 == v[a as int].height);
                assert(sizes@[b as int].1 == v[b as int].height);
            }
            let nn = n as u128;
            assert(nn * (wi as u128 + 2) + 2 <= 0x1_0000_0000_0000_0000 * 0x1_0000_0002 + 2) by (nonlinear_arith)
                requires
                    nn <= 0xffff_ffff_ffff_ffff,
                    wi <= 0xffff_ffff,
            ;
            assert(nn * (hj as u128 + 2) + 2 <= 0x1_0000_0000_0000_0000 * 0x1_0000_0002 + 2) by (nonlinear_arith)
                requires
                    nn <= 0xffff_ffff_ffff_ffff,
                    hj <= 0xffff_ffff,
            ;
            let w = nn * (wi as u128 + 2) + 2;
            let h = nn * (hj as u128 + 2) + 2;
            if w > u32::MAX as u128 || h > u32::MAX as u128 {
                proof {
                    assert(!pair_fits(n as int, v[a as int], v[b as int]));
                    assert(!views_fit(v));
                }
                return false;
            }
            assert((h + 1) * w * 4 + 4 <= 0x1_0000_0001 * 0x1_0000_0000 * 4 + 4) by (nonlinear_arith)
                requires
                    h <= 0xffff_ffff,
                    w <= 0xffff_ffff,
            ;
            assert((hi as u128) * (wi as u128) * 4 <= 0x1_0000_0000 * 0x1_0000_0000 * 4) by (nonlinear_arith)
                requires
                    hi <= 0xffff_ffff,
                    wi <= 0xffff_ffff,
            ;
            if (h + 1) * w * 4 + 4 > usize::MAX as u128 || (hi as u128) * (wi as u128) * 4 > usize::MAX as u128 {
                proof {
                    assert(!pair_fits(n as int, v[a as int], v[b as int]));
                    assert(!views_fit(v));
                }
                return false;
            }
            assert(pair_fits(n as int, v[a as int], v[b as int]));
            b = b + 1;
        }
        a = a + 1;
    }
    proof {
        assert forall|i: int, j: int| #![trigger v[i], v[j]] 0 <= i < v.len() && 0 <= j < v.len() implies pair_fits(v.len() as int, v[i], v[j]) by {
            assert(pair_fits(n as int, v[i], v[j]));
        }
    }
    true
}

/// The pair condition of [`views_fit`] for one pair of images.
pub open spec fn pair_fits(n: int, a: FramedView, b: FramedView) -> bool {
    let w = n * (a.width + 2) + 2;
    let h = n * (b.height + 2) + 2;
    &&& w <= u32::MAX
    &&& h <= u32::MAX
    &&& (h + 1) * w * 4 + 4 <= usize::MAX
    &&& a.height * a.width * 4 <= usize::MAX
}

/// Why a source whose sidecar at `path` did not parse fails: the sidecar
/// named, what was wrong with it, and that it was not touched.
pub open spec fn meta_failure_text(path: Seq<char>, err: MetaError) -> Seq<char> {
    path + ".meta"@ + ": "@ + meta_fault_text(err.fault()) + "; the file was left as it is"@
}

/// Whether source `i` imports: its sidecar parsed (or is absent) and its
/// file was read.
pub open spec fn loads(es: Seq<Entry>, ls: Seq<Result<Loaded, LoadError>>, i: int) -> bool {
    es[i].meta_error is None && ls[i] is Ok
}

/// Every PNG strip that imports has clip durations that convert to ticks at
/// `rate`.
pub open spec fn strips_fit(es: Seq<Entry>, ls: Seq<Result<Loaded, LoadError>>, rate: u32) -> bool {
    forall|i: int|
        0 <= i < es.len() && #[trigger] loads(es, ls, i) && ls[i]->Ok_0 is Png && strip_count(es[i].settings) > 1
            ==> strip_ticks_fit(es[i].settings, rate)
}

/// The failures of the first `n` sources: each one's name and message. A
/// source whose sidecar did not parse fails for that, whatever reading it
/// gave.
pub open spec fn failures_of(es: Seq<Entry>, ls: Seq<Result<Loaded, LoadError>>, n: int) -> Seq<(Seq<char>, Seq<char>)>
    decreases n,
{
    if n <= 0 {
        Seq::empty()
    } else {
        failures_of(es, ls, n - 1) + match es[n - 1].meta_error {
            Some(err) => seq![(es[n - 1].name@, meta_failure_text(es[n - 1].path@, err))],
            None => match ls[n - 1] {
                Ok(_) => Seq::empty(),
                Err(e) => seq![(es[n - 1].name@, load_error_text(e))],
            },
        }
    }
}

/// The warnings of the first `n` sources: for each PNG read, its clip
/// overlaps, under its name.
pub open spec fn warnings_of(es: Seq<Entry>, ls: Seq<Result<Loaded, LoadError>>, n: int) -> Seq<(Seq<char>, Seq<char>)>
    decreases n,
{
    if n <= 0 {
        Seq::empty()
    } else {
        warnings_of(es, ls, n - 1) + match ls[n - 1] {
            Ok(Loaded::Png(_)) => if es[n - 1].meta_error is None {
                let ws = all_warnings(es[n - 1].settings.clips@, 0);
                Seq::new(ws.len(), |k: int| (es[n - 1].name@, ws[k]))
            } else {
                Seq::empty()
            },
            _ => Seq::empty(),
        }
    }
}

/// Name-and-text pairs as plain values.
pub open spec fn pair_views(v: Seq<(String, String)>) -> Seq<(Seq<char>, Seq<char>)> {
    Seq::new(v.len(), |i: int| (v[i].0@, v[i].1@))
}

/// Packing these images stays inside the machine's integers.
pub open spec fn views_fit(v: Seq<FramedView>) -> bool {
    forall|i: int, j: int|
        #![trigger v[i], v[j]]
        0 <= i < v.len() && 0 <= j < v.len() ==> pair_fits(v.len() as int, v[i], v[j])
}

/// Images whose views fit can be packed.
proof fn lemma_views_fit(p: Seq<Framed>)
    requires
        views_fit(framed_views(p)),
    ensures
        pack_fits(p),
{
    let v = framed_views(p);
    assert forall|i: int, j: int| 0 <= i < p.len() && 0 <= j < p.len() implies fits_pair(
        p.len() as int,
        #[trigger] p[i].image,
        #[trigger] p[j].image,
    ) by {
        assert(v[i] == framed_view(p[i]));
        assert(v[j] == framed_view(p[j]));
    }
}

/// The result of importing a project.
pub struct Imported {
    /// Artifacts by asset name.
    pub artifacts: ArtifactMap,
    /// Every atlas-eligible image, packed.
    pub sheet: Sheet,
    /// What went wrong, per asset: its name and the message.
    pub failures: Vec<(String, String)>,
    /// What looked suspicious without stopping the import, per asset.
    pub warnings: Vec<(String, String)>,
}

impl Imported {
    /// The clips an animation imported to; none for anything else.
    pub fn clips(&self, name: &str) -> (r: &[Clip])
        ensures
            r@ == (if artifacts_of(self.artifacts).contains_key(name@) {
                match artifacts_of(self.artifacts)[name@] {
                    Artifact::Animation { clips, .. } => clips@,
                    _ => Seq::empty(),
                }
            } else {
                Seq::empty()
            }),
    {
        match artifacts_get(&self.artifacts, name) {
            Some(Artifact::Animation { clips, .. }) => clips.as_slice(),
            _ => &[],
        }
    }
}

/// `what` happened to the sources of a catalogue: for each entry, in
/// order, what reading it gave or why it could not be read.
pub open spec fn imported(
    es: Seq<Entry>,
    ls: Seq<Result<Loaded, LoadError>>,
    rate: u32,
    out: Imported,
) -> bool {
    let n = es.len() as int;
    let arts = artifacts_of(out.artifacts);
    &&& forall|name: Seq<char>|
        #[trigger] arts.contains_key(name) <==> exists|i: int|
            0 <= i < n && es[i].name@ == name && loads(es, ls, i)
    &&& forall|i: int|
        0 <= i < n && #[trigger] loads(es, ls, i) ==> arts.contains_key(es[i].name@) && imports_to(
            es[i],
            ls[i]->Ok_0,
            rate,
            arts[es[i].name@],
        )
    &&& pair_views(out.failures@) == failures_of(es, ls, n)
    &&& pair_views(out.warnings@) == warnings_of(es, ls, n)
    &&& exists|p: Seq<Framed>|
        framed_views(p) == packables(es, ls, n) && exists|order: Seq<Framed>|
            order.to_multiset() =~= p.to_multiset() && in_packing_order(order) && #[trigger] packed(
                order,
                MAX_SHEET_WIDTH as int,
                out.sheet,
            )
}

/// Import every source in a catalogue.
///
/// `loaded` holds, for each entry in order, what reading its file gave.
/// `tick_rate` is baked into the clips of PNG strips here, at import, which
/// is the whole reason this needs to know it. What imported is recorded by
/// name; what failed is reported and the rest carries on.
pub fn import(catalog: &Catalog, loaded: Vec<Result<Loaded, LoadError>>, tick_rate: u32) -> (out: Imported)
    requires
        loaded@.len() == catalog.spec_entries().len(),
        tick_rate > 0,
        strips_fit(catalog.spec_entries(), loaded@, tick_rate),
        views_fit(packables(catalog.spec_entries(), loaded@, loaded@.len() as int)),
    ensures
        imported(catalog.spec_entries(), loaded@, tick_rate, out),
        laid_apart(out.sheet),
{
    let entries = catalog.entries();
    let ghost es = entries@;
    let ghost ls = loaded@;
    let mut rest = loaded;
    let mut artifacts = artifacts_new();
    let mut failures: Vec<(String, String)> = Vec::new();
    let mut warnings: Vec<(String, String)> = Vec::new();
    let mut packable: Vec<Framed> = Vec::new();
    let mut k: usize = 0;
    proof {
        assert(ls.skip(0) =~= ls);
    }
    while k < entries.len()
        invariant
            k <= es.len(),
            es == entries@,
            ls.len() == es.len(),
            names_sorted(es),
            tick_rate > 0,
            strips_fit(es, ls, tick_rate),
            rest@ == ls.skip(k as int),
            forall|name: Seq<char>|
                #[trigger] artifacts_of(artifacts).contains_key(name) <==> exists|i: int|
                    0 <= i < k && es[i].name@ == name && loads(es, ls, i),
            forall|i: int|
                0 <= i < k && #[trigger] loads(es, ls, i) ==> artifacts_of(artifacts).contains_key(es[i].name@)
                    && imports_to(es[i], ls[i]->Ok_0, tick_rate, artifacts_of(artifacts)[es[i].name@]),
            pair_views(failures@) == failures_of(es, ls, k as int),
            pair_views(warnings@) == warnings_of(es, ls, k as int),
            framed_views(packable@) == packables(es, ls, k as int),
        decreases es.len() - k,
    {
        let entry = &entries[k];
        let item = rest.remove(0);
        proof {
            assert(ls.skip(k as int)[0] == item);
            assert(ls.skip(k as int).remove(0) =~= ls.skip(k + 1));
            assert(ls[k as int] == item);
        }
        let ghost before_arts = artifacts_of(artifacts);
        let ghost before_fail = failures@;
        let ghost before_warn = warnings@;
        let ghost before_pack = packable@;
        if let Some(err) = &entry.meta_error {
            let mut message = meta_path(entry.path.as_str());
            crate::text::push_str(&mut message, ": ");
            let why = err.message();
            crate::text::push_str(&mut message, why.as_str());
            crate::text::push_str(&mut message, "; the file was left as it is");
            proof {
                assert(*entry == es[k as int]);
                assert(message@ =~= meta_failure_text(es[k as int].path@, *err));
            }
            failures.push((entry.name.clone(), message));
            proof {
                assert(pair_views(failures@) =~= pair_views(before_fail) + seq![
                    (es[k as int].name@, meta_failure_text(es[k as int].path@, *err)),
                ]);
                assert(packables(es, ls, k + 1) =~= packables(es, ls, k as int));
                assert(warnings_of(es, ls, k + 1) =~= warnings_of(es, ls, k as int));
                assert(!loads(es, ls, k as int));
            }
        } else {
        match item {
            Err(e) => {
                let message = e.message();
                failures.push((entry.name.clone(), message));
                proof {
                    assert(pair_views(failures@) =~= pair_views(before_fail) + seq![(es[k as int].name@, load_error_text(e))]);
                    assert(packables(es, ls, k + 1) =~= packables(es, ls, k as int));
                    assert(warnings_of(es, ls, k + 1) =~= warnings_of(es, ls, k as int));
                }
            },
            Ok(l) => {
                let ghost lv = l;
                // What goes on the sheet, and what the overlaps of a strip's
                // clips are, before the pixels move into the artifact.
                let is_png = match &l {
                    Loaded::Png(_) => true,
                    _ => false,
                };
                if entry.settings.atlas {
                    match &l {
                        Loaded::Png(img) => {
                            let frames = if entry.settings.frames > 1 { entry.settings.frames } else { 1 };
                            let image = Image {
                                name: entry.name.clone(),
                                width: img.width,
                                height: img.height,
                                pixels: img.pixels.clone(),
                            };
                            packable.push(Framed { image, frames });
                        },
                        Loaded::Aseprite(x) => {
                            let image = Image {
                                name: entry.name.clone(),
                                width: x.sheet.width,
                                height: x.sheet.height,
                                pixels: x.sheet.pixels.clone(),
                            };
                            packable.push(Framed { image, frames: x.frame_count });
                        },
                        _ => {},
                    }
                }
                proof {
                    assert(framed_views(packable@) =~= packables(es, ls, k + 1));
                }
                if is_png {
                    let ws = entry.settings.clip_warnings();
                    let mut w: usize = 0;
                    while w < ws.len()
                        invariant
                            w <= ws@.len(),
                            ws@.len() == all_warnings(es[k as int].settings.clips@, 0).len(),
                            forall|j: int| 0 <= j < ws@.len() ==> (#[trigger] ws@[j])@ == all_warnings(es[k as int].settings.clips@, 0)[j],
                            entry == es[k as int],
                            pair_views(warnings@) == pair_views(before_warn) + Seq::new(
                                w as nat,
                                |j: int| (es[k as int].name@, all_warnings(es[k as int].settings.clips@, 0)[j]),
                            ),
                        decreases ws@.len() - w,
                    {
                        let ghost prev = warnings@;
                        warnings.push((entry.name.clone(), ws[w].clone()));
                        proof {
                            assert(pair_views(warnings@) =~= pair_views(prev).push((es[k as int].name@, all_warnings(es[k as int].settings.clips@, 0)[w as int])));
                        }
                        w = w + 1;
                    }
                    proof {
                        let ws2 = all_warnings(es[k as int].settings.clips@, 0);
                        assert(pair_views(warnings@) =~= warnings_of(es, ls, k + 1));
                    }
                } else {
                    proof {
                        assert(warnings_of(es, ls, k + 1) =~= warnings_of(es, ls, k as int));
                    }
                }
                proof {
                    assert(loads(es, ls, k as int));
                    assert(ls[k as int]->Ok_0 == l);
                }
                let a = import_one(entry, l, tick_rate);
                let ghost av = a;
                artifacts_insert(&mut artifacts, entry.name.clone(), a);
                proof {
                    assert(artifacts_of(artifacts) == before_arts.insert(es[k as int].name@, av));
                    assert(failures_of(es, ls, k + 1) =~= failures_of(es, ls, k as int));
                    assert forall|name: Seq<char>|
                        #[trigger] artifacts_of(artifacts).contains_key(name) <==> exists|i: int|
                            0 <= i < k + 1 && es[i].name@ == name && loads(es, ls, i) by {
                        if name == es[k as int].name@ {
                            assert(loads(es, ls, k as int));
                        } else if artifacts_of(artifacts).contains_key(name) {
                            assert(before_arts.contains_key(name));
                        }
                    }
                    assert forall|i: int|
                        0 <= i < k + 1 && #[trigger] loads(es, ls, i) implies artifacts_of(artifacts).contains_key(es[i].name@)
                            && imports_to(es[i], ls[i]->Ok_0, tick_rate, artifacts_of(artifacts)[es[i].name@]) by {
                        if i < k {
                            assert(name_less(es[i].name@, es[k as int].name@));
                            lemma_name_less_irreflexive(es[i].name@);
                        }
                    }
                }
            },
        }
        }
        k = k + 1;
    }
    proof {
        lemma_views_fit(packable@);
    }
    let ghost p = packable@;
    let sheet = pack_framed(packable, MAX_SHEET_WIDTH);
    let out = Imported { artifacts, sheet, failures, warnings };
    proof {
        let order = choose|order: Seq<Framed>|
            order.to_multiset() =~= p.to_multiset() && in_packing_order(order) && #[trigger] packed(
                order,
                MAX_SHEET_WIDTH as int,
                out.sheet,
            );
        assert(framed_views(p) == packables(es, ls, es.len() as int));
        assert(order.to_multiset() =~= p.to_multiset() && in_packing_order(order) && packed(
            order,
            MAX_SHEET_WIDTH as int,
            out.sheet,
        ));
    }
    out
}

/// Whether an import failed for the asset `name`.
pub open spec fn failed(failures: Seq<(String, String)>, name: Seq<char>) -> bool {
    exists|i: int| 0 <= i < failures.len() && (#[trigger] failures[i]).0@ == name
}

/// The settings a sidecar records once its source has imported: the same,
/// with the hash of the bytes that were imported.
pub open spec fn recorded(e: Entry) -> ImportSettings {
    ImportSettings { source_hash: Some(e.hash), ..e.settings }
}

/// The sidecars an import writes, in catalogue order: for every source whose
/// import did not fail, its `.meta` path and the text of its settings with
/// the source's hash recorded. A failed source keeps its old sidecar, so the
/// next run tries again rather than treating the failure as done.
pub open spec fn sidecars_of(es: Seq<Entry>, failures: Seq<(String, String)>) -> Seq<(Seq<char>, Seq<char>)>
    decreases es.len(),
{
    if es.len() == 0 {
        Seq::empty()
    } else {
        sidecars_of(es.drop_last(), failures) + if es.last().meta_error is Some || failed(failures, es.last().name@) {
            Seq::empty()
        } else {
            seq![(es.last().path@ + ".meta"@, settings_text(recorded(es.last())))]
        }
    }
}

/// The sidecars to write after an import: each project-relative `.meta`
/// path with the text it should hold. Writing them, and only those whose
/// text differs from what is on disk, is the caller's.
pub fn sidecars(catalog: &Catalog, imported: &Imported) -> (r: Vec<(String, String)>)
    ensures
        pair_views(r@) == sidecars_of(catalog.spec_entries(), imported.failures@),
{
    let entries = catalog.entries();
    let mut out: Vec<(String, String)> = Vec::new();
    let mut k: usize = 0;
    while k < entries.len()
        invariant
            k <= entries@.len(),
            entries@ == catalog.spec_entries(),
            pair_views(out@) == sidecars_of(entries@.subrange(0, k as int), imported.failures@),
        decreases entries@.len() - k,
    {
        assert(entries@.subrange(0, k + 1).drop_last() == entries@.subrange(0, k as int));
        let e = &entries[k];
        let mut gone = false;
        let mut i: usize = 0;
        while i < imported.failures.len()
            invariant
                i <= imported.failures@.len(),
                gone == exists|j: int| 0 <= j < i && (#[trigger] imported.failures@[j]).0@ == e.name@,
            decreases imported.failures@.len() - i,
        {
            if crate::text::str_eq(imported.failures[i].0.as_str(), e.name.as_str()) {
                gone = true;
            }
            i = i + 1;
        }
        if e.meta_error.is_some() {
            assert(pair_views(out@) =~= sidecars_of(entries@.subrange(0, k + 1), imported.failures@));
        } else if !gone {
            let mut settings = e.settings.copy();
            settings.source_hash = Some(e.hash.clone());
            let text = settings.to_text();
            assert(text@ == settings_text(recorded(*e)));
            let path = meta_path(e.path.as_str());
            let ghost before = pair_views(out@);
            out.push((path, text));
            assert(pair_views(out@) =~= before.push((e.path@ + ".meta"@, settings_text(recorded(*e)))));
        } else {
            assert(pair_views(out@) =~= sidecars_of(entries@.subrange(0, k + 1), imported.failures@));
        }
        k = k + 1;
    }
    assert(entries@.subrange(0, entries@.len() as int) == entries@);
    out
}

} // verus!
