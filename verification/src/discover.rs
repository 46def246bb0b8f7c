//! Finding the audio files to convert. The application looks at the file
//! system (what the input path is, and which regular files a directory walk
//! finds); this module decides what is an input and in which order.
use vstd::prelude::*;
use crate::audio_format::{AudioFormat, format_of_path};
use crate::config::Config;
use crate::path::{FsPath, PathView, lex_le, lemma_lex_le_total, lemma_lex_le_transitive, path_key, path_le};
use crate::text::{append_str, string_of};

verus! {

broadcast use vstd::seq_lib::group_to_multiset_ensures;

/// What the input path is on disk.
#[derive(Debug, Clone, Copy, PartialEq, Eq, Structural)]
pub enum InputKind {
    File,
    Directory,
    /// Neither a file nor a directory (missing or not accessible).
    Missing,
}

/// What the application observed about an input path.
#[derive(Debug)]
pub struct InputListing {
    pub kind: InputKind,
    /// For a directory: the regular files that the walk met, in walk order.
    pub files: Vec<FsPath>,
    /// For a directory: the error that stopped the walk, if one did.
    pub scan_error: Option<String>,
}

#[derive(Debug)]
pub enum DiscoverError {
    /// The input is a file of no supported format.
    Unsupported(FsPath),
    /// The input is neither a file nor a directory.
    Missing(FsPath),
    /// Walking the directory failed.
    ScanFailed(String),
}

pub enum DiscoverErrorView {
    Unsupported(PathView),
    Missing(PathView),
    ScanFailed(Seq<char>),
}

impl View for DiscoverError {
    type V = DiscoverErrorView;

    open spec fn view(&self) -> DiscoverErrorView {
        match self {
            DiscoverError::Unsupported(p) => DiscoverErrorView::Unsupported(p@),
            DiscoverError::Missing(p) => DiscoverErrorView::Missing(p@),
            DiscoverError::ScanFailed(m) => DiscoverErrorView::ScanFailed(m@),
        }
    }
}

/// The views of a sequence of paths.
pub open spec fn path_views(ps: Seq<FsPath>) -> Seq<PathView> {
    ps.map_values(|p: FsPath| p@)
}

/// A file found in a directory is an input when it has a supported format
/// other than the excluded one.
pub open spec fn is_candidate(p: PathView, excluded: Option<AudioFormat>) -> bool {
    match format_of_path(p) {
        Some(f) => excluded != Some(f),
        None => false,
    }
}

/// The candidates among `files`, in their order.
pub open spec fn candidates(files: Seq<PathView>, excluded: Option<AudioFormat>) -> Seq<PathView>
    decreases files.len(),
{
    if files.len() == 0 {
        Seq::empty()
    } else {
        let prev = candidates(files.drop_last(), excluded);
        if is_candidate(files.last(), excluded) {
            prev.push(files.last())
        } else {
            prev
        }
    }
}

/// Sorted in `Path`'s order.
pub open spec fn sorted_paths(ps: Seq<PathView>) -> bool {
    forall|i: int, j: int| 0 <= i < j < ps.len() ==> path_le(#[trigger] ps[i], #[trigger] ps[j])
}

/// The result of discovery for an input path, as far as it is determined:
/// an error, or (for a directory) the set of inputs whose order
/// `discovery_ok` pins down.
pub open spec fn discovery_error(input: PathView, kind: InputKind, scan_error: Option<Seq<char>>)
    -> Option<DiscoverErrorView> {
    match kind {
        InputKind::File => if format_of_path(input) is None {
            Some(DiscoverErrorView::Unsupported(input))
        } else {
            None
        },
        InputKind::Missing => Some(DiscoverErrorView::Missing(input)),
        InputKind::Directory => match scan_error {
            Some(m) => Some(DiscoverErrorView::ScanFailed(m)),
            None => None,
        },
    }
}

/// A successful discovery: a supported file stands alone; a directory gives
/// its candidates sorted in `Path`'s order (each as often as the walk met it).
pub open spec fn discovery_ok(
    input: PathView,
    kind: InputKind,
    files: Seq<PathView>,
    excluded: Option<AudioFormat>,
    result: Seq<PathView>,
) -> bool {
    match kind {
        InputKind::File => result == seq![input],
        _ => {
            &&& sorted_paths(result)
            &&& result.to_multiset() == candidates(files, excluded).to_multiset()
        },
    }
}

pub open spec fn opt_string_view(o: Option<String>) -> Option<Seq<char>> {
    match o {
        Some(s) => Some(s@),
        None => None,
    }
}

/// How deep the directory walk goes: the top level only, unless recursive.
pub fn walk_depth(recursive: bool) -> (depth: usize)
    ensures
        depth == if recursive {
            usize::MAX
        } else {
            1
        },
{
    if recursive {
        usize::MAX
    } else {
        1
    }
}

/// The inputs of a conversion run: a supported file, or the supported files
/// of a directory except those already in the target format.
pub fn discover(config: &Config, listing: &InputListing) -> (r: Result<Vec<FsPath>, DiscoverError>)
    ensures
        match r {
            Ok(v) => discovery_error(config.input_path@, listing.kind, opt_string_view(
                listing.scan_error,
            )) is None && discovery_ok(
                config.input_path@,
                listing.kind,
                path_views(listing.files@),
                Some(config.target_format),
                path_views(v@),
            ),
            Err(e) => discovery_error(
                config.input_path@,
                listing.kind,
                opt_string_view(listing.scan_error),
            ) == Some(e@),
        },
{
    discover_with_excluded_target(&config.input_path, listing, Some(config.target_format))
}

/// The inputs that the readiness check would see: every supported file.
pub fn discover_for_doctor(input_path: &FsPath, listing: &InputListing) -> (r: Result<
    Vec<FsPath>,
    DiscoverError,
>)
    ensures
        match r {
            Ok(v) => discovery_error(input_path@, listing.kind, opt_string_view(listing.scan_error))
                is None && discovery_ok(
                input_path@,
                listing.kind,
                path_views(listing.files@),
                None,
                path_views(v@),
            ),
            Err(e) => discovery_error(input_path@, listing.kind, opt_string_view(listing.scan_error))
                == Some(e@),
        },
{
    discover_with_excluded_target(input_path, listing, None)
}

fn discover_with_excluded_target(
    input_path: &FsPath,
    listing: &InputListing,
    excluded: Option<AudioFormat>,
) -> (r: Result<Vec<FsPath>, DiscoverError>)
    ensures
        match r {
            Ok(v) => discovery_error(input_path@, listing.kind, opt_string_view(listing.scan_error))
                is None && discovery_ok(
                input_path@,
                listing.kind,
                path_views(listing.files@),
                excluded,
                path_views(v@),
            ),
            Err(e) => discovery_error(input_path@, listing.kind, opt_string_view(listing.scan_error))
                == Some(e@),
        },
{
    match listing.kind {
        InputKind::File => {
            if AudioFormat::from_path(input_path).is_none() {
                return Err(DiscoverError::Unsupported(input_path.copy()));
            }
            let mut v: Vec<FsPath> = Vec::new();
            v.push(input_path.copy());
            proof {
                assert(path_views(v@) =~= seq![input_path@]);
            }
            Ok(v)
        },
        InputKind::Missing => Err(DiscoverError::Missing(input_path.copy())),
        InputKind::Directory => {
            match &listing.scan_error {
                Some(m) => {
                    return Err(DiscoverError::ScanFailed(m.clone()));
                },
                None => {},
            }
            let kept = select_candidates(&listing.files, excluded);
            Ok(sort_paths(kept))
        },
    }
}

proof fn lemma_candidates_contains(files: Seq<PathView>, excluded: Option<AudioFormat>, p: PathView)
    ensures
        candidates(files, excluded).contains(p) <==> (files.contains(p) && is_candidate(p, excluded)),
    decreases files.len(),
{
    if files.len() > 0 {
        let prev = files.drop_last();
        lemma_candidates_contains(prev, excluded, p);
        let c = candidates(prev, excluded);
        if files.contains(p) && is_candidate(p, excluded) {
            let k = choose|k: int| 0 <= k < files.len() && files[k] == p;
            if k < files.len() - 1 {
                assert(prev[k] == p);
            } else if !c.contains(p) {
                assert(candidates(files, excluded) == c.push(p));
                assert(c.push(p)[c.len() as int] == p);
            }
            if c.contains(p) && files.last() != p {
                let j = choose|j: int| 0 <= j < c.len() && c[j] == p;
                assert(candidates(files, excluded)[j] == p);
            } else if c.contains(p) {
                let j = choose|j: int| 0 <= j < c.len() && c[j] == p;
                if is_candidate(files.last(), excluded) {
                    assert(candidates(files, excluded)[j] == p);
                }
            }
        }
        if candidates(files, excluded).contains(p) {
            let j = choose|j: int| 0 <= j < candidates(files, excluded).len() && candidates(files, excluded)[j] == p;
            if j < c.len() {
                assert(c[j] == p);
                let k = choose|k: int| 0 <= k < prev.len() && prev[k] == p;
                assert(files[k] == p);
            } else {
                assert(p == files.last());
                assert(files[files.len() - 1] == p);
            }
        }
    }
}

/// A directory's inputs are exactly its walked files whose format is
/// supported and differs from the excluded target: each input is such a
/// file, and each such file is an input.
pub proof fn law_directory_inputs_are_the_other_supported_files(
    input: PathView,
    files: Seq<PathView>,
    excluded: Option<AudioFormat>,
    result: Seq<PathView>,
)
    requires
        discovery_ok(input, InputKind::Directory, files, excluded, result),
    ensures
        forall|i: int|
            0 <= i < result.len() ==> files.contains(#[trigger] result[i]) && format_of_path(
                result[i],
            ) is Some && format_of_path(result[i]) != excluded,
        forall|j: int|
            0 <= j < files.len() && format_of_path(#[trigger] files[j]) is Some && format_of_path(
                files[j],
            ) != excluded ==> result.contains(files[j]),
{
    let c = candidates(files, excluded);
    assert forall|i: int| 0 <= i < result.len() implies files.contains(#[trigger] result[i])
        && format_of_path(result[i]) is Some && format_of_path(result[i]) != excluded by {
        let p = result[i];
        assert(result.to_multiset().count(p) > 0);
        assert(c.to_multiset().count(p) > 0);
        lemma_candidates_contains(files, excluded, p);
    }
    assert forall|j: int|
        0 <= j < files.len() && format_of_path(#[trigger] files[j]) is Some && format_of_path(
            files[j],
        ) != excluded implies result.contains(files[j]) by {
        let p = files[j];
        lemma_candidates_contains(files, excluded, p);
        assert(c.contains(p));
        assert(c.to_multiset().count(p) > 0);
        assert(result.to_multiset().count(p) > 0);
    }
}

/// The candidates among the walked files, in walk order.
fn select_candidates(files: &Vec<FsPath>, excluded: Option<AudioFormat>) -> (r: Vec<FsPath>)
    ensures
        path_views(r@) == candidates(path_views(files@), excluded),
{
    let mut r: Vec<FsPath> = Vec::new();
    let mut i: usize = 0;
    while i < files.len()
        invariant
            i <= files.len(),
            path_views(r@) == candidates(path_views(files@.subrange(0, i as int)), excluded),
        decreases files.len() - i,
    {
        let ghost prefix = path_views(files@.subrange(0, i + 1));
        proof {
            assert(prefix.drop_last() =~= path_views(files@.subrange(0, i as int)));
            assert(prefix.last() == files@[i as int]@);
        }
        let keep = match AudioFormat::from_path(&files[i]) {
            Some(f) => match excluded {
                Some(x) => f != x,
                None => true,
            },
            None => false,
        };
        if keep {
            let ghost before = r@;
            r.push(files[i].copy());
            proof {
                assert(path_views(r@) =~= path_views(before).push(files@[i as int]@));
            }
        }
        i = i + 1;
    }
    proof {
        assert(files@.subrange(0, files.len() as int) =~= files@);
    }
    r
}

/// The sort key of a path as numbers.
pub fn path_key_exec(p: &FsPath) -> (r: Vec<u16>)
    ensures
        r@ == path_key(p@),
{
    p.order_key()
}

/// Lexicographic comparison of number sequences.
pub fn lex_le_exec(a: &Vec<u16>, b: &Vec<u16>) -> (r: bool)
    ensures
        r == lex_le(a@, b@),
{
    let mut i: usize = 0;
    proof {
        assert(a@.skip(0) =~= a@);
        assert(b@.skip(0) =~= b@);
    }
    while i < a.len() && i < b.len()
        invariant
            i <= a.len(),
            i <= b.len(),
            lex_le(a@, b@) == lex_le(a@.skip(i as int), b@.skip(i as int)),
        decreases a.len() - i,
    {
        if a[i] < b[i] {
            return true;
        }
        if a[i] > b[i] {
            return false;
        }
        proof {
            assert(a@.skip(i as int).drop_first() =~= a@.skip(i + 1));
            assert(b@.skip(i as int).drop_first() =~= b@.skip(i + 1));
        }
        i = i + 1;
    }
    i == a.len()
}

/// `Path`'s `<=`.
pub fn path_le_exec(a: &FsPath, b: &FsPath) -> (r: bool)
    ensures
        r == path_le(a@, b@),
{
    let ka = path_key_exec(a);
    let kb = path_key_exec(b);
    lex_le_exec(&ka, &kb)
}

proof fn lemma_path_le_total(a: PathView, b: PathView)
    ensures
        path_le(a, b) || path_le(b, a),
{
    lemma_lex_le_total(path_key(a), path_key(b));
}

proof fn lemma_path_le_transitive(a: PathView, b: PathView, c: PathView)
    requires
        path_le(a, b),
        path_le(b, c),
    ensures
        path_le(a, c),
{
    lemma_lex_le_transitive(path_key(a), path_key(b), path_key(c));
}

/// Sorts paths in `Path`'s order (insertion sort; equal paths keep their
/// relative order).
pub fn sort_paths(paths: Vec<FsPath>) -> (r: Vec<FsPath>)
    ensures
        sorted_paths(path_views(r@)),
        path_views(r@).to_multiset() == path_views(paths@).to_multiset(),
{
    let mut out: Vec<FsPath> = Vec::new();
    let mut i: usize = 0;
    while i < paths.len()
        invariant
            i <= paths.len(),
            sorted_paths(path_views(out@)),
            path_views(out@).to_multiset() == path_views(paths@.subrange(0, i as int)).to_multiset(),
        decreases paths.len() - i,
    {
        let p = paths[i].copy();
        let mut pos: usize = 0;
        while pos < out.len() && path_le_exec(&out[pos], &p)
            invariant
                pos <= out.len(),
                forall|k: int| 0 <= k < pos ==> path_le(#[trigger] out@[k]@, p@),
            decreases out.len() - pos,
        {
            pos = pos + 1;
        }
        let ghost before = out@;
        let ghost pv = p@;
        proof {
            if pos < out.len() {
                lemma_path_le_total(out@[pos as int]@, p@);
            }
        }
        out.insert(pos, p);
        proof {
            let vb = path_views(before);
            let va = path_views(out@);
            assert(va =~= vb.insert(pos as int, pv));
            assert forall|a: int, b: int| 0 <= a < b < va.len() implies path_le(
                #[trigger] va[a],
                #[trigger] va[b],
            ) by {
                if b < pos {
                    assert(va[a] == vb[a] && va[b] == vb[b]);
                } else if b == pos {
                    assert(va[a] == before[a]@);
                } else if a == pos {
                    // p <= before[pos] <= before[b - 1]
                    assert(va[b] == vb[b - 1]);
                    if pos < b - 1 {
                        assert(path_le(vb[pos as int], vb[b - 1]));
                        lemma_path_le_transitive(pv, vb[pos as int], vb[b - 1]);
                    }
                } else if a < pos {
                    assert(va[a] == vb[a] && va[b] == vb[b - 1]);
                } else {
                    assert(va[a] == vb[a - 1] && va[b] == vb[b - 1]);
                }
            }
            let pre = path_views(paths@.subrange(0, i as int));
            let post = path_views(paths@.subrange(0, i + 1));
            assert(post =~= pre.push(pv));
            assert(vb.insert(pos as int, pv).to_multiset() == vb.to_multiset().insert(pv));
        }
        i = i + 1;
    }
    proof {
        assert(paths@.subrange(0, paths.len() as int) =~= paths@);
    }
    out
}

impl DiscoverError {
    /// The message shown to the user.
    pub fn message(&self) -> (r: String)
        ensures
            r@ == discover_message(self@),
    {
        match self {
            DiscoverError::Unsupported(p) => {
                let mut m = string_of(
                    "input file is not a supported audio file (.flac, .aiff, .aif, .wav): ",
                );
                let shown = p.display();
                append_str(&mut m, shown.as_str());
                m
            },
            DiscoverError::Missing(p) => {
                let mut m = string_of("input path does not exist or is not accessible: ");
                let shown = p.display();
                append_str(&mut m, shown.as_str());
                m
            },
            DiscoverError::ScanFailed(_) => string_of("failed while scanning input directory"),
        }
    }
}

/// The message of each discovery error.
pub open spec fn discover_message(e: DiscoverErrorView) -> Seq<char> {
    match e {
        DiscoverErrorView::Unsupported(p) => "input file is not a supported audio file (.flac, .aiff, .aif, .wav): "@
            + crate::path::shown(p),
        DiscoverErrorView::Missing(p) => "input path does not exist or is not accessible: "@
            + crate::path::shown(p),
        DiscoverErrorView::ScanFailed(_) => "failed while scanning input directory"@,
    }
}

} // verus!
