//! A model of file-system paths as the standard library's `Path` sees them:
//! an optional root followed by components, together with the bytes as
//! written, which is how a path is shown. Equality of paths is equality of
//! their components, as for `Path`. Names are held as the bytes of their
//! encoding, so paths that are not UTF-8 are represented faithfully.
use vstd::prelude::*;
use crate::text::{lossy_text, lossy_utf8};
use crate::path_bytes::{
    body_start, raw_join, raw_join_exec, raw_parent, raw_parent_exec, raw_strip, raw_strip_exec,
    raw_trim_exec, raw_with_extension, raw_with_extension_exec, trim_back,
};

verus! {

pub open spec fn slash() -> u8 {
    47
}

pub open spec fn dot() -> u8 {
    46
}

/// One component of a path.
#[derive(Debug, Clone, PartialEq, Eq)]
pub enum Component {
    /// `.` at the start of a relative path.
    CurDir,
    /// `..`
    ParentDir,
    /// Any other name, as encoded bytes.
    Normal(Vec<u8>),
}

pub enum ComponentView {
    CurDir,
    ParentDir,
    Normal(Seq<u8>),
}

impl View for Component {
    type V = ComponentView;

    open spec fn view(&self) -> ComponentView {
        match self {
            Component::CurDir => ComponentView::CurDir,
            Component::ParentDir => ComponentView::ParentDir,
            Component::Normal(n) => ComponentView::Normal(n@),
        }
    }
}

/// A path: whether it starts at the root, its components, and its bytes
/// as written (which is how it is shown).
#[derive(Debug, PartialEq, Eq)]
pub struct FsPath {
    absolute: bool,
    components: Vec<Component>,
    raw: Vec<u8>,
}

pub struct PathView {
    pub absolute: bool,
    pub components: Seq<ComponentView>,
    pub raw: Seq<u8>,
}

/// Two paths are equal as `Path`'s `==` sees them: by their components.
pub open spec fn same_path(a: PathView, b: PathView) -> bool {
    a.absolute == b.absolute && a.components == b.components
}

/// How a path is shown (`Path::display`): its bytes, decoded lossily.
pub open spec fn shown(p: PathView) -> Seq<char> {
    lossy_utf8(p.raw)
}

impl View for FsPath {
    type V = PathView;

    closed spec fn view(&self) -> PathView {
        PathView {
            absolute: self.absolute,
            components: self.components@.map_values(|c: Component| c@),
            raw: self.raw@,
        }
    }
}

/// A name that can stand as a normal component.
pub open spec fn valid_name(n: Seq<u8>) -> bool {
    &&& n.len() > 0
    &&& !n.contains(slash())
    &&& n != seq![dot()]
    &&& n != seq![dot(), dot()]
}

/// The shape that `Path::components` always produces: names are proper,
/// and `.` only leads a relative path.
pub open spec fn wf(p: PathView) -> bool {
    forall|i: int|
        0 <= i < p.components.len() ==> match #[trigger] p.components[i] {
            ComponentView::Normal(n) => valid_name(n),
            ComponentView::CurDir => i == 0 && !p.absolute,
            ComponentView::ParentDir => true,
        }
}

impl FsPath {
    #[verifier::type_invariant]
    spec fn inv(self) -> bool {
        wf(self@)
    }
}

// ---------------------------------------------------------------------------
// Parsing and rendering
// ---------------------------------------------------------------------------
/// The pieces of `b` between slashes (always at least one piece).
pub open spec fn split_slash(b: Seq<u8>) -> Seq<Seq<u8>>
    decreases b.len(),
{
    if b.len() == 0 {
        seq![Seq::<u8>::empty()]
    } else {
        let prev = split_slash(b.drop_last());
        if b.last() == slash() {
            prev.push(Seq::<u8>::empty())
        } else {
            prev.update(prev.len() - 1, prev.last().push(b.last()))
        }
    }
}

/// The component that one piece between slashes contributes, if any:
/// empty pieces and `.` contribute nothing.
pub open spec fn piece_component(piece: Seq<u8>) -> Option<ComponentView> {
    if piece.len() == 0 || piece == seq![dot()] {
        None
    } else if piece == seq![dot(), dot()] {
        Some(ComponentView::ParentDir)
    } else {
        Some(ComponentView::Normal(piece))
    }
}

pub open spec fn pieces_components(pieces: Seq<Seq<u8>>) -> Seq<ComponentView>
    decreases pieces.len(),
{
    if pieces.len() == 0 {
        Seq::empty()
    } else {
        let prev = pieces_components(pieces.drop_last());
        match piece_component(pieces.last()) {
            Some(c) => prev.push(c),
            None => prev,
        }
    }
}

/// A relative path that is `.` or starts with `./` keeps a leading `.`.
pub open spec fn leads_with_cur_dir(b: Seq<u8>) -> bool {
    b.len() >= 1 && b[0] == dot() && (b.len() == 1 || b[1] == slash())
}

/// The components that `Path::new(b).components()` yields for the
/// encoded bytes `b` of a path (on Unix).
pub open spec fn parse_path(b: Seq<u8>) -> PathView {
    PathView {
        absolute: b.len() > 0 && b[0] == slash(),
        components: (if leads_with_cur_dir(b) {
            seq![ComponentView::CurDir]
        } else {
            Seq::empty()
        }) + pieces_components(split_slash(b)),
        raw: b,
    }
}

proof fn lemma_split_slash_nonempty(b: Seq<u8>)
    ensures
        split_slash(b).len() >= 1,
    decreases b.len(),
{
    if b.len() > 0 {
        lemma_split_slash_nonempty(b.drop_last());
    }
}

proof fn lemma_split_slash_pieces(b: Seq<u8>)
    ensures
        forall|k: int|
            0 <= k < split_slash(b).len() ==> !(#[trigger] split_slash(b)[k]).contains(slash()),
    decreases b.len(),
{
    lemma_split_slash_nonempty(b);
    if b.len() > 0 {
        lemma_split_slash_pieces(b.drop_last());
        lemma_split_slash_nonempty(b.drop_last());
        let prev = split_slash(b.drop_last());
        assert forall|k: int| 0 <= k < split_slash(b).len() implies !(
        #[trigger] split_slash(b)[k]).contains(slash()) by {
            if b.last() != slash() && k == prev.len() - 1 {
                let piece = prev.last().push(b.last());
                if piece.contains(slash()) {
                    let j = choose|j: int| 0 <= j < piece.len() && piece[j] == slash();
                    assert(prev.last()[j] == slash());
                }
            }
        }
    }
}

proof fn lemma_pieces_components_wf(pieces: Seq<Seq<u8>>)
    requires
        forall|k: int| 0 <= k < pieces.len() ==> !(#[trigger] pieces[k]).contains(slash()),
    ensures
        forall|i: int|
            0 <= i < pieces_components(pieces).len() ==> match #[trigger] pieces_components(
                pieces,
            )[i] {
                ComponentView::Normal(n) => valid_name(n),
                ComponentView::CurDir => false,
                ComponentView::ParentDir => true,
            },
    decreases pieces.len(),
{
    if pieces.len() > 0 {
        lemma_pieces_components_wf(pieces.drop_last());
        assert(pieces.last() == pieces[pieces.len() - 1]);
    }
}

proof fn lemma_split_slash_no_slash(b: Seq<u8>)
    requires
        !b.contains(slash()),
    ensures
        split_slash(b) == seq![b],
    decreases b.len(),
{
    if b.len() > 0 {
        if b.drop_last().contains(slash()) {
            let k = choose|k: int| 0 <= k < b.drop_last().len() && b.drop_last()[k] == slash();
            assert(b[k] == slash());
        }
        lemma_split_slash_no_slash(b.drop_last());
        assert(b[b.len() - 1] != slash());
        assert(b.drop_last().push(b.last()) =~= b);
    } else {
        assert(b =~= Seq::<u8>::empty());
    }
}

/// A proper name parses as the relative path of that one name.
pub proof fn lemma_parse_name(b: Seq<u8>)
    requires
        valid_name(b),
    ensures
        parse_path(b).absolute == false,
        parse_path(b).components == seq![ComponentView::Normal(b)],
{
    lemma_split_slash_no_slash(b);
    assert(b[0] != slash()) by {
        assert(b.contains(b[0]));
    }
    if leads_with_cur_dir(b) {
        if b.len() == 1 {
            assert(b =~= seq![dot()]);
        } else {
            assert(b.contains(b[1]));
        }
    }
    assert(seq![b].drop_last() =~= Seq::<Seq<u8>>::empty());
    assert(seq![b].last() == b);
    assert(piece_component(b) == Some(ComponentView::Normal(b)));
    assert(pieces_components(Seq::<Seq<u8>>::empty()) == Seq::<ComponentView>::empty());
    assert(pieces_components(seq![b]) =~= seq![ComponentView::Normal(b)]);
    assert(Seq::<ComponentView>::empty() + seq![ComponentView::Normal(b)] =~= seq![
        ComponentView::Normal(b),
    ]);
}

impl FsPath {
    /// Parses the encoded bytes of a path into its components
    /// (`Path::new(..).components()` on Unix).
    pub fn parse(bytes: &Vec<u8>) -> (p: FsPath)
        ensures
            p@ == parse_path(bytes@),
    {
        let n = bytes.len();
        let absolute = n > 0 && bytes[0] == 47u8;
        let lead = n >= 1 && bytes[0] == 46u8 && (n == 1 || bytes[1] == 47u8);
        let mut comps: Vec<Component> = Vec::new();
        if lead {
            comps.push(Component::CurDir);
        }
        let ghost prefix: Seq<ComponentView> = if lead {
            seq![ComponentView::CurDir]
        } else {
            Seq::empty()
        };
        let mut piece: Vec<u8> = Vec::new();
        let mut i: usize = 0;
        proof {
            assert(bytes@.subrange(0, 0) =~= Seq::<u8>::empty());
        }
        while i < n
            invariant
                n == bytes.len(),
                i <= n,
                lead == leads_with_cur_dir(bytes@),
                prefix == (if lead {
                    seq![ComponentView::CurDir]
                } else {
                    Seq::<ComponentView>::empty()
                }),
                comps@.map_values(|c: Component| c@) == prefix + pieces_components(
                    split_slash(bytes@.subrange(0, i as int)).drop_last(),
                ),
                piece@ == split_slash(bytes@.subrange(0, i as int)).last(),
            decreases n - i,
        {
            let ghost before = bytes@.subrange(0, i as int);
            let ghost after = bytes@.subrange(0, i + 1);
            proof {
                assert(after.drop_last() =~= before);
                lemma_split_slash_nonempty(before);
            }
            let b = bytes[i];
            if b == 47u8 {
                let ghost old_comps = comps@.map_values(|c: Component| c@);
                Self::flush_piece(&mut comps, &piece);
                proof {
                    let sp = split_slash(before);
                    assert(split_slash(after) == sp.push(Seq::<u8>::empty()));
                    assert(split_slash(after).drop_last() =~= sp);
                    assert(sp.drop_last().push(sp.last()) =~= sp);
                    assert(sp.last() == piece@);
                    assert(pieces_components(sp) == match piece_component(piece@) {
                        Some(c) => pieces_components(sp.drop_last()).push(c),
                        None => pieces_components(sp.drop_last()),
                    });
                    assert(comps@.map_values(|c: Component| c@) =~= prefix + pieces_components(
                        split_slash(after).drop_last(),
                    ));
                }
                piece = Vec::new();
                proof {
                    assert(split_slash(after).last() =~= Seq::<u8>::empty());
                }
            } else {
                piece.push(b);
                proof {
                    let sp = split_slash(before);
                    assert(split_slash(after) == sp.update(sp.len() - 1, sp.last().push(b)));
                    assert(split_slash(after).drop_last() =~= sp.drop_last());
                    assert(piece@ =~= split_slash(after).last());
                }
            }
            i = i + 1;
        }
        let ghost all = bytes@.subrange(0, n as int);
        proof {
            assert(all =~= bytes@);
            lemma_split_slash_nonempty(all);
        }
        Self::flush_piece(&mut comps, &piece);
        proof {
            let sp = split_slash(all);
            assert(sp.drop_last().push(sp.last()) =~= sp);
            assert(pieces_components(sp) == match piece_component(piece@) {
                Some(c) => pieces_components(sp.drop_last()).push(c),
                None => pieces_components(sp.drop_last()),
            });
            lemma_split_slash_pieces(bytes@);
            lemma_pieces_components_wf(split_slash(bytes@));
            let cs = comps@.map_values(|c: Component| c@);
            assert(cs =~= prefix + pieces_components(split_slash(bytes@)));
            let pv = PathView { absolute, components: cs, raw: bytes@ };
            assert forall|k: int| 0 <= k < cs.len() implies match #[trigger] cs[k] {
                ComponentView::Normal(nm) => valid_name(nm),
                ComponentView::CurDir => k == 0 && !absolute,
                ComponentView::ParentDir => true,
            } by {
                if lead {
                    if k > 0 {
                        assert(cs[k] == pieces_components(split_slash(bytes@))[k - 1]);
                    }
                } else {
                    assert(cs[k] == pieces_components(split_slash(bytes@))[k]);
                }
            }
        }
        FsPath { absolute, components: comps, raw: copy_bytes(bytes) }
    }

    fn flush_piece(comps: &mut Vec<Component>, piece: &Vec<u8>)
        ensures
            final(comps)@.map_values(|c: Component| c@) == match piece_component(piece@) {
                Some(c) => old(comps)@.map_values(|c: Component| c@).push(c),
                None => old(comps)@.map_values(|c: Component| c@),
            },
    {
        let len = piece.len();
        if len == 0 || (len == 1 && piece[0] == 46u8) {
            proof {
                if len == 1 {
                    assert(piece@ =~= seq![dot()]);
                }
            }
        } else if len == 2 && piece[0] == 46u8 && piece[1] == 46u8 {
            proof {
                assert(piece@ =~= seq![dot(), dot()]);
            }
            comps.push(Component::ParentDir);
            proof {
                assert(final(comps)@.map_values(|c: Component| c@) =~= old(comps)@.map_values(
                    |c: Component| c@,
                ).push(ComponentView::ParentDir));
            }
        } else {
            proof {
                if len == 1 {
                    assert(piece@ != seq![dot()]);
                }
                if len == 2 {
                    assert(piece@ != seq![dot(), dot()]);
                }
            }
            comps.push(Component::Normal(copy_bytes(piece)));
            proof {
                assert(final(comps)@.map_values(|c: Component| c@) =~= old(comps)@.map_values(
                    |c: Component| c@,
                ).push(ComponentView::Normal(piece@)));
            }
        }
    }
}

/// A fresh vector with the same bytes.
pub fn copy_bytes(b: &Vec<u8>) -> (r: Vec<u8>)
    ensures
        r@ == b@,
{
    let mut r: Vec<u8> = Vec::new();
    let mut i: usize = 0;
    while i < b.len()
        invariant
            i <= b.len(),
            r@ == b@.subrange(0, i as int),
        decreases b.len() - i,
    {
        r.push(b[i]);
        i = i + 1;
        assert(r@ =~= b@.subrange(0, i as int));
    }
    assert(b@.subrange(0, b.len() as int) =~= b@);
    r
}

/// Whether two byte strings are equal.
pub fn bytes_equal(a: &Vec<u8>, b: &Vec<u8>) -> (r: bool)
    ensures
        r == (a@ == b@),
{
    if a.len() != b.len() {
        return false;
    }
    let mut i: usize = 0;
    while i < a.len()
        invariant
            a.len() == b.len(),
            i <= a.len(),
            forall|k: int| 0 <= k < i ==> a@[k] == b@[k],
        decreases a.len() - i,
    {
        if a[i] != b[i] {
            return false;
        }
        i = i + 1;
    }
    assert(a@ =~= b@);
    true
}


// ---------------------------------------------------------------------------
// Names, stems and extensions
// ---------------------------------------------------------------------------
/// The final component of a path, when it is a normal name (`Path::file_name`).
pub open spec fn file_name(p: PathView) -> Option<Seq<u8>> {
    if p.components.len() > 0 {
        match p.components.last() {
            ComponentView::Normal(n) => Some(n),
            _ => None,
        }
    } else {
        None
    }
}

/// Index of the last `.` in a name, or -1.
pub open spec fn last_dot(n: Seq<u8>) -> int
    decreases n.len(),
{
    if n.len() == 0 {
        -1
    } else if n.last() == dot() {
        n.len() - 1
    } else {
        last_dot(n.drop_last())
    }
}

/// The name without its extension (`Path::file_stem`): everything before
/// the last `.`, unless that `.` starts the name.
pub open spec fn stem_of(n: Seq<u8>) -> Seq<u8> {
    if n == seq![dot(), dot()] || last_dot(n) <= 0 {
        n
    } else {
        n.take(last_dot(n))
    }
}

/// The extension of a name (`Path::extension`).
pub open spec fn extension_of(n: Seq<u8>) -> Option<Seq<u8>> {
    if n == seq![dot(), dot()] || last_dot(n) <= 0 {
        None
    } else {
        Some(n.skip(last_dot(n) + 1))
    }
}

/// The extension of a path's file name, if it has one.
pub open spec fn path_extension(p: PathView) -> Option<Seq<u8>> {
    match file_name(p) {
        Some(n) => extension_of(n),
        None => None,
    }
}

/// `PathBuf::set_extension(ext)`: the file name's stem followed by `.` and
/// `ext`; an empty `ext` leaves the stem alone (which is then read again as
/// components); a path without a file name is left alone.
pub open spec fn with_extension(p: PathView, ext: Seq<u8>) -> PathView {
    match file_name(p) {
        Some(n) => if ext.len() == 0 {
            parse_path(raw_with_extension(p.raw, ext))
        } else {
            PathView {
            absolute: p.absolute,
            components: p.components.update(
                p.components.len() - 1,
                ComponentView::Normal(stem_of(n) + seq![dot()] + ext),
            ),
            raw: raw_with_extension(p.raw, ext),
        }
        },
        None => p,
    }
}

// ---------------------------------------------------------------------------
// Joining, prefixes and parents
// ---------------------------------------------------------------------------
/// `Path::join`: an absolute `rel` replaces `base`; otherwise the components
/// follow those of `base`, where a leading `.` of `rel` disappears unless
/// `base` is the empty path.
pub open spec fn join(base: PathView, rel: PathView) -> PathView {
    if rel.absolute {
        rel
    } else {
        let tail = if (base.absolute || base.components.len() > 0) && rel.components.len() > 0
            && rel.components[0] == ComponentView::CurDir {
            rel.components.drop_first()
        } else {
            rel.components
        };
        PathView {
            absolute: base.absolute,
            components: base.components + tail,
            raw: raw_join(base.raw, rel.raw),
        }
    }
}

/// `Path::strip_prefix`: the rest of `p` after the components of `base`
/// (the root counting as a component), if `base` is a prefix of `p`.
pub open spec fn strip_prefix(p: PathView, base: PathView) -> Option<PathView> {
    if !base.absolute && base.components.len() == 0 {
        Some(PathView { raw: trim_back(p.raw, body_start(p.raw)), ..p })
    } else if p.absolute == base.absolute && base.components.len() <= p.components.len()
        && p.components.take(base.components.len() as int) == base.components {
        Some(
            PathView {
                absolute: false,
                components: p.components.skip(base.components.len() as int),
                raw: raw_strip(p.raw, body_count(base)),
            },
        )
    } else {
        None
    }
}

/// The components of `base` after its leading `.`, if it has one.
pub open spec fn body_count(base: PathView) -> nat {
    if base.components.len() > 0 && base.components[0] == ComponentView::CurDir {
        (base.components.len() - 1) as nat
    } else {
        base.components.len()
    }
}

/// `Path::parent`: the path without its last component; none for the empty
/// path and for the root alone.
pub open spec fn parent(p: PathView) -> Option<PathView> {
    if p.components.len() == 0 {
        None
    } else {
        Some(
            PathView {
                absolute: p.absolute,
                components: p.components.drop_last(),
                raw: raw_parent(p.raw),
            },
        )
    }
}

// ---------------------------------------------------------------------------
// Ordering
// ---------------------------------------------------------------------------
/// Each component as a self-delimiting sequence of numbers; comparing these
/// encodings lexicographically compares components in the order of
/// `std::path::Component` (root, `.`, `..`, then names by their bytes).
pub open spec fn component_key(c: ComponentView) -> Seq<u16> {
    match c {
        ComponentView::CurDir => seq![2u16, 0u16],
        ComponentView::ParentDir => seq![3u16, 0u16],
        ComponentView::Normal(n) => seq![4u16] + n.map_values(|b: u8| (b + 1) as u16) + seq![
            0u16,
        ],
    }
}

pub open spec fn components_key(cs: Seq<ComponentView>) -> Seq<u16>
    decreases cs.len(),
{
    if cs.len() == 0 {
        Seq::empty()
    } else {
        components_key(cs.drop_last()) + component_key(cs.last())
    }
}

/// The sort key of a path: `Path`'s ordering is the lexicographic ordering
/// of these keys.
pub open spec fn path_key(p: PathView) -> Seq<u16> {
    (if p.absolute {
        seq![1u16, 0u16]
    } else {
        Seq::empty()
    }) + components_key(p.components)
}

/// Lexicographic `<=` on number sequences.
pub open spec fn lex_le(a: Seq<u16>, b: Seq<u16>) -> bool
    decreases a.len(),
{
    if a.len() == 0 {
        true
    } else if b.len() == 0 {
        false
    } else if a[0] < b[0] {
        true
    } else if a[0] > b[0] {
        false
    } else {
        lex_le(a.drop_first(), b.drop_first())
    }
}

/// `Path`'s `<=`.
pub open spec fn path_le(a: PathView, b: PathView) -> bool {
    lex_le(path_key(a), path_key(b))
}

pub proof fn lemma_lex_le_total(a: Seq<u16>, b: Seq<u16>)
    ensures
        lex_le(a, b) || lex_le(b, a),
    decreases a.len(),
{
    if a.len() > 0 && b.len() > 0 && a[0] == b[0] {
        lemma_lex_le_total(a.drop_first(), b.drop_first());
    }
}

pub proof fn lemma_lex_le_transitive(a: Seq<u16>, b: Seq<u16>, c: Seq<u16>)
    requires
        lex_le(a, b),
        lex_le(b, c),
    ensures
        lex_le(a, c),
    decreases a.len(),
{
    if a.len() > 0 && b.len() > 0 && c.len() > 0 && a[0] == b[0] && b[0] == c[0] {
        lemma_lex_le_transitive(a.drop_first(), b.drop_first(), c.drop_first());
    }
}

// ---------------------------------------------------------------------------
// Operations
// ---------------------------------------------------------------------------
impl Component {
    pub fn copy(&self) -> (r: Component)
        ensures
            r@ == self@,
    {
        match self {
            Component::CurDir => Component::CurDir,
            Component::ParentDir => Component::ParentDir,
            Component::Normal(n) => Component::Normal(copy_bytes(n)),
        }
    }

    pub fn same_as(&self, other: &Component) -> (r: bool)
        ensures
            r == (self@ == other@),
    {
        match (self, other) {
            (Component::CurDir, Component::CurDir) => true,
            (Component::ParentDir, Component::ParentDir) => true,
            (Component::Normal(a), Component::Normal(b)) => bytes_equal(a, b),
            _ => false,
        }
    }
}

proof fn lemma_view_index(cs: Seq<Component>, i: int)
    requires
        0 <= i < cs.len(),
    ensures
        cs.map_values(|c: Component| c@)[i] == cs[i]@,
{
}

impl FsPath {
    /// Whether the path starts at the root.
    pub fn is_absolute(&self) -> (r: bool)
        ensures
            r == self@.absolute,
    {
        self.absolute
    }

    /// Number of components after the root.
    pub fn component_count(&self) -> (r: usize)
        ensures
            r == self@.components.len(),
    {
        self.components.len()
    }

    /// A fresh path equal to this one.
    pub fn copy(&self) -> (r: FsPath)
        ensures
            r@ == self@,
    {
        proof {
            use_type_invariant(self);
        }
        let mut comps: Vec<Component> = Vec::new();
        let mut i: usize = 0;
        while i < self.components.len()
            invariant
                i <= self.components.len(),
                comps@.map_values(|c: Component| c@) == self@.components.subrange(0, i as int),
            decreases self.components.len() - i,
        {
            let ghost old_comps = comps@;
            let c = self.components[i].copy();
            comps.push(c);
            proof {
                lemma_view_index(self.components@, i as int);
                assert(comps@ == old_comps.push(c));
                assert(comps@.map_values(|c: Component| c@) =~= old_comps.map_values(
                    |c: Component| c@,
                ).push(c@));
                assert(self@.components.subrange(0, i + 1) =~= self@.components.subrange(
                    0,
                    i as int,
                ).push(self@.components[i as int]));
            }
            i = i + 1;
        }
        proof {
            assert(self@.components.subrange(0, self.components.len() as int)
                =~= self@.components);
        }
        FsPath { absolute: self.absolute, components: comps, raw: copy_bytes(&self.raw) }
    }

    /// Whether two paths are equal (as `Path`'s `==`: by their components).
    pub fn same_as(&self, other: &FsPath) -> (r: bool)
        ensures
            r == same_path(self@, other@),
    {
        if self.absolute != other.absolute || self.components.len() != other.components.len() {
            proof {
                if same_path(self@, other@) {
                    assert(self@.components.len() == other@.components.len());
                }
            }
            return false;
        }
        let mut i: usize = 0;
        while i < self.components.len()
            invariant
                self.components.len() == other.components.len(),
                i <= self.components.len(),
                forall|k: int| 0 <= k < i ==> self@.components[k] == other@.components[k],
            decreases self.components.len() - i,
        {
            if !self.components[i].same_as(&other.components[i]) {
                proof {
                    lemma_view_index(self.components@, i as int);
                    lemma_view_index(other.components@, i as int);
                    if same_path(self@, other@) {
                        assert(self@.components[i as int] == other@.components[i as int]);
                    }
                }
                return false;
            }
            proof {
                lemma_view_index(self.components@, i as int);
                lemma_view_index(other.components@, i as int);
            }
            i = i + 1;
        }
        proof {
            assert(self@.components =~= other@.components);
        }
        true
    }

    /// A relative path made of the single name `name`.
    pub fn from_name(name: &Vec<u8>) -> (p: FsPath)
        requires
            valid_name(name@),
        ensures
            p@ == (PathView {
                absolute: false,
                components: seq![ComponentView::Normal(name@)],
                raw: name@,
            }),
    {
        let mut comps: Vec<Component> = Vec::new();
        comps.push(Component::Normal(copy_bytes(name)));
        proof {
            assert(comps@.map_values(|c: Component| c@) =~= seq![ComponentView::Normal(name@)]);
        }
        FsPath { absolute: false, components: comps, raw: copy_bytes(name) }
    }

    /// The encoded bytes of the path, as written.
    pub fn to_bytes(&self) -> (r: Vec<u8>)
        ensures
            r@ == self@.raw,
    {
        copy_bytes(&self.raw)
    }

    /// The path as text, invalid UTF-8 replaced (`Path::display`).
    pub fn display(&self) -> (r: String)
        ensures
            r@ == shown(self@),
    {
        lossy_text(&self.raw)
    }
}


proof fn lemma_last_dot_bounds(n: Seq<u8>)
    ensures
        -1 <= last_dot(n) < n.len(),
        last_dot(n) >= 0 ==> n[last_dot(n)] == dot(),
        forall|k: int| last_dot(n) < k < n.len() ==> n[k] != dot(),
    decreases n.len(),
{
    if n.len() > 0 && n.last() != dot() {
        lemma_last_dot_bounds(n.drop_last());
        assert forall|k: int| last_dot(n) < k < n.len() implies n[k] != dot() by {
            if k < n.len() - 1 {
                assert(n[k] == n.drop_last()[k]);
            }
        }
    }
}

/// Where the last `.` of a name lies.
pub proof fn lemma_last_dot_bounds_pub(n: Seq<u8>)
    ensures
        -1 <= last_dot(n) < n.len(),
        last_dot(n) >= 0 ==> n[last_dot(n)] == dot(),
{
    lemma_last_dot_bounds(n);
}

/// Index of the last `.` in `n`.
fn find_last_dot(n: &Vec<u8>) -> (r: Option<usize>)
    ensures
        match r {
            Some(i) => last_dot(n@) == i,
            None => last_dot(n@) == -1,
        },
{
    let mut i: usize = n.len();
    proof {
        assert(n@.subrange(0, i as int) =~= n@);
    }
    while i > 0
        invariant
            i <= n.len(),
            last_dot(n@) == last_dot(n@.subrange(0, i as int)),
        decreases i,
    {
        let ghost sub = n@.subrange(0, i as int);
        if n[i - 1] == 46u8 {
            assert(sub.last() == dot());
            return Some(i - 1);
        }
        assert(sub.drop_last() =~= n@.subrange(0, i - 1));
        i = i - 1;
    }
    None
}

fn is_dot_dot(n: &Vec<u8>) -> (r: bool)
    ensures
        r == (n@ == seq![dot(), dot()]),
{
    let r = n.len() == 2 && n[0] == 46u8 && n[1] == 46u8;
    proof {
        if r {
            assert(n@ =~= seq![dot(), dot()]);
        }
    }
    r
}

/// The stem of a name (`Path::file_stem` of a one-name path).
pub fn stem_bytes(n: &Vec<u8>) -> (r: Vec<u8>)
    ensures
        r@ == stem_of(n@),
{
    let found = find_last_dot(n);
    if is_dot_dot(n) {
        return copy_bytes(n);
    }
    match found {
        Some(i) => {
            if i == 0 {
                copy_bytes(n)
            } else {
                let mut r: Vec<u8> = Vec::new();
                let mut j: usize = 0;
                proof {
                    lemma_last_dot_bounds(n@);
                }
                while j < i
                    invariant
                        i < n.len(),
                        j <= i,
                        r@ == n@.subrange(0, j as int),
                    decreases i - j,
                {
                    r.push(n[j]);
                    j = j + 1;
                    assert(r@ =~= n@.subrange(0, j as int));
                }
                r
            }
        },
        None => copy_bytes(n),
    }
}

/// The extension of a name (`Path::extension` of a one-name path).
pub fn extension_bytes(n: &Vec<u8>) -> (r: Option<Vec<u8>>)
    ensures
        match r {
            Some(e) => extension_of(n@) == Some(e@),
            None => extension_of(n@) is None,
        },
{
    let found = find_last_dot(n);
    if is_dot_dot(n) {
        return None;
    }
    match found {
        Some(i) => {
            if i == 0 {
                None
            } else {
                proof {
                    lemma_last_dot_bounds(n@);
                    assert(i < n.len());
                }
                let mut r: Vec<u8> = Vec::new();
                let mut j: usize = i + 1;
                while j < n.len()
                    invariant
                        i < n.len(),
                        i + 1 <= j <= n.len(),
                        r@ == n@.subrange(i + 1, j as int),
                    decreases n.len() - j,
                {
                    r.push(n[j]);
                    j = j + 1;
                    assert(r@ =~= n@.subrange(i + 1, j as int));
                }
                assert(r@ =~= n@.skip(i + 1));
                Some(r)
            }
        },
        None => None,
    }
}

proof fn lemma_stem_valid(n: Seq<u8>)
    requires
        valid_name(n),
    ensures
        stem_of(n).len() > 0,
        !stem_of(n).contains(slash()),
{
    lemma_last_dot_bounds(n);
    if !(n == seq![dot(), dot()] || last_dot(n) <= 0) {
        let st = n.take(last_dot(n));
        if st.contains(slash()) {
            let j = choose|j: int| 0 <= j < st.len() && st[j] == slash();
            assert(n[j] == slash());
            assert(n.contains(slash()));
        }
    }
}

proof fn lemma_last_dot_no_dot_tail(a: Seq<u8>, b: Seq<u8>)
    requires
        !b.contains(dot()),
    ensures
        last_dot(a + b) == last_dot(a),
    decreases b.len(),
{
    if b.len() == 0 {
        assert(a + b =~= a);
    } else {
        let c = a + b;
        assert(c.last() == b[b.len() - 1]);
        assert(c.drop_last() =~= a + b.drop_last());
        if b.drop_last().contains(dot()) {
            let j = choose|j: int| 0 <= j < b.drop_last().len() && b.drop_last()[j] == dot();
            assert(b[j] == dot());
        }
        lemma_last_dot_no_dot_tail(a, b.drop_last());
    }
}

/// Renaming a nonempty name to its stem, a dot and an extension without a
/// dot makes that extension the name's extension.
pub proof fn lemma_renamed_extension(n: Seq<u8>, ext: Seq<u8>)
    requires
        n.len() > 0,
        ext.len() > 0,
        !ext.contains(dot()),
    ensures
        extension_of(stem_of(n) + seq![dot()] + ext) == Some(ext),
{
    lemma_last_dot_bounds(n);
    let st = stem_of(n);
    assert(st.len() > 0);
    let sd = st + seq![dot()];
    assert(sd.last() == dot());
    assert(last_dot(sd) == st.len());
    lemma_last_dot_no_dot_tail(sd, ext);
    let m = st + seq![dot()] + ext;
    assert(m == sd + ext);
    assert(m.len() >= 3);
    assert(m != seq![dot(), dot()]);
    assert(m.skip(st.len() + 1int) =~= ext);
}

/// The extension of a name that is valid UTF-8 is valid UTF-8: it follows
/// the ASCII byte `.`.
pub proof fn lemma_extension_valid_utf8(n: Seq<u8>)
    requires
        vstd::utf8::valid_utf8(n),
    ensures
        extension_of(n) matches Some(e) ==> vstd::utf8::valid_utf8(e),
{
    if let Some(e) = extension_of(n) {
        lemma_last_dot_bounds(n);
        let d = last_dot(n);
        vstd::utf8::is_char_boundary_iff_is_leading_byte(n, d);
        vstd::utf8::valid_utf8_split(n, d);
        let sub = n.subrange(d, n.len() as int);
        assert(sub[0] == dot());
        assert(vstd::utf8::length_of_first_scalar(sub) == 1);
        assert(vstd::utf8::pop_first_scalar(sub) =~= e);
    }
}

proof fn lemma_new_name_valid(n: Seq<u8>, ext: Seq<u8>)
    requires
        valid_name(n),
        ext.len() > 0,
        !ext.contains(slash()),
    ensures
        valid_name(stem_of(n) + seq![dot()] + ext),
{
    lemma_stem_valid(n);
    let m = stem_of(n) + seq![dot()] + ext;
    let st = stem_of(n);
    assert(m.len() >= 3);
    if m.contains(slash()) {
        let j = choose|j: int| 0 <= j < m.len() && m[j] == slash();
        if j < st.len() {
            assert(st[j] == slash());
            assert(st.contains(slash()));
        } else if j == st.len() {
            assert(m[j] == dot());
        } else {
            assert(ext[j - st.len() - 1] == slash());
            assert(ext.contains(slash()));
        }
    }
    assert(m.len() != 1 && m.len() != 2);
    assert(m != seq![dot()]);
    assert(m != seq![dot(), dot()]);
}

impl FsPath {
    /// The file name (`Path::file_name`).
    pub fn file_name(&self) -> (r: Option<Vec<u8>>)
        ensures
            match r {
                Some(n) => file_name(self@) == Some(n@),
                None => file_name(self@) is None,
            },
    {
        let k = self.components.len();
        if k == 0 {
            return None;
        }
        proof {
            lemma_view_index(self.components@, k - 1);
        }
        match &self.components[k - 1] {
            Component::Normal(n) => Some(copy_bytes(n)),
            _ => None,
        }
    }

    /// The extension of the file name (`Path::extension`).
    pub fn extension(&self) -> (r: Option<Vec<u8>>)
        ensures
            match r {
                Some(e) => path_extension(self@) == Some(e@),
                None => path_extension(self@) is None,
            },
    {
        match self.file_name() {
            Some(n) => extension_bytes(&n),
            None => None,
        }
    }

    /// The path with the extension of its file name replaced by `ext`
    /// (`PathBuf::set_extension` on a copy); an empty `ext` removes it. An
    /// extension holding `/` is left out: `set_extension` panics on it.
    pub fn with_extension(&self, ext: &Vec<u8>) -> (r: FsPath)
        requires
            !ext@.contains(slash()),
        ensures
            r@ == with_extension(self@, ext@),
    {
        proof {
            use_type_invariant(self);
        }
        let k = self.components.len();
        if k == 0 {
            return self.copy();
        }
        proof {
            lemma_view_index(self.components@, k - 1);
        }
        match &self.components[k - 1] {
            Component::Normal(n) => {
                if ext.len() == 0 {
                    let raw = raw_with_extension_exec(&self.raw, ext);
                    return FsPath::parse(&raw);
                }
                let mut name = stem_bytes(n);
                name.push(46u8);
                let mut j: usize = 0;
                let ghost base = name@;
                while j < ext.len()
                    invariant
                        j <= ext.len(),
                        name@ == base + ext@.subrange(0, j as int),
                    decreases ext.len() - j,
                {
                    name.push(ext[j]);
                    j = j + 1;
                    assert(name@ =~= base + ext@.subrange(0, j as int));
                }
                proof {
                    assert(ext@.subrange(0, ext.len() as int) =~= ext@);
                    assert(name@ =~= stem_of(n@) + seq![dot()] + ext@);
                    assert(self@.components[k - 1] == ComponentView::Normal(n@));
                    assert(valid_name(n@));
                    lemma_new_name_valid(n@, ext@);
                }
                let raw = raw_with_extension_exec(&self.raw, ext);
                let mut r = self.copy();
                r.replace_last_name(name, raw);
                r
            },
            _ => self.copy(),
        }
    }

    fn replace_last_name(&mut self, name: Vec<u8>, raw: Vec<u8>)
        requires
            old(self)@.components.len() > 0,
            valid_name(name@),
            old(self)@.components.last() is Normal,
        ensures
            final(self)@ == (PathView {
                absolute: old(self)@.absolute,
                components: old(self)@.components.update(
                    old(self)@.components.len() - 1,
                    ComponentView::Normal(name@),
                ),
                raw: raw@,
            }),
    {
        proof {
            use_type_invariant(&*self);
        }
        let k = self.components.len();
        let mut comps: Vec<Component> = Vec::new();
        let mut i: usize = 0;
        while i + 1 < k
            invariant
                k == self.components.len(),
                k > 0,
                i + 1 <= k,
                comps@.map_values(|c: Component| c@) == self@.components.subrange(0, i as int),
            decreases k - i,
        {
            let ghost old_comps = comps@;
            let c = self.components[i].copy();
            comps.push(c);
            proof {
                lemma_view_index(self.components@, i as int);
                assert(comps@.map_values(|c: Component| c@) =~= old_comps.map_values(
                    |c: Component| c@,
                ).push(c@));
                assert(self@.components.subrange(0, i + 1) =~= self@.components.subrange(
                    0,
                    i as int,
                ).push(self@.components[i as int]));
            }
            i = i + 1;
        }
        let ghost old_comps = comps@;
        let ghost nv = name@;
        let last = Component::Normal(name);
        assert(last@ == ComponentView::Normal(nv));
        comps.push(last);
        let ghost new_view = self@.components.update(k - 1, ComponentView::Normal(nv));
        proof {
            assert(old_comps.map_values(|c: Component| c@) == self@.components.subrange(
                0,
                k - 1,
            ));
            assert(comps@.map_values(|c: Component| c@) =~= old_comps.map_values(
                |c: Component| c@,
            ).push(last@));
            assert(comps@.map_values(|c: Component| c@) =~= new_view);
            let pv = PathView { absolute: self@.absolute, components: new_view, raw: raw@ };
            assert forall|j: int| 0 <= j < new_view.len() implies match #[trigger] new_view[j] {
                ComponentView::Normal(n) => valid_name(n),
                ComponentView::CurDir => j == 0 && !pv.absolute,
                ComponentView::ParentDir => true,
            } by {
                if j < k - 1 {
                    assert(new_view[j] == self@.components[j]);
                }
            }
        }
        *self = FsPath { absolute: self.absolute, components: comps, raw };
    }

    /// `Path::join`.
    pub fn join(&self, rel: &FsPath) -> (r: FsPath)
        ensures
            r@ == join(self@, rel@),
    {
        proof {
            use_type_invariant(self);
            use_type_invariant(rel);
        }
        if rel.absolute {
            return rel.copy();
        }
        let mut comps: Vec<Component> = Vec::new();
        let mut i: usize = 0;
        while i < self.components.len()
            invariant
                i <= self.components.len(),
                comps@.map_values(|c: Component| c@) == self@.components.subrange(0, i as int),
            decreases self.components.len() - i,
        {
            let ghost old_comps = comps@;
            let c = self.components[i].copy();
            comps.push(c);
            proof {
                lemma_view_index(self.components@, i as int);
                assert(comps@.map_values(|c: Component| c@) =~= old_comps.map_values(
                    |c: Component| c@,
                ).push(c@));
                assert(self@.components.subrange(0, i + 1) =~= self@.components.subrange(
                    0,
                    i as int,
                ).push(self@.components[i as int]));
            }
            i = i + 1;
        }
        proof {
            assert(self@.components.subrange(0, self.components.len() as int)
                =~= self@.components);
        }
        let skip_first = (self.absolute || self.components.len() > 0) && rel.components.len() > 0
            && match &rel.components[0] {
            Component::CurDir => true,
            _ => false,
        };
        proof {
            if rel.components.len() > 0 {
                lemma_view_index(rel.components@, 0);
            }
        }
        let start: usize = if skip_first {
            1
        } else {
            0
        };
        let ghost tail = rel@.components.subrange(start as int, rel@.components.len() as int);
        let ghost head = comps@.map_values(|c: Component| c@);
        let mut j: usize = start;
        while j < rel.components.len()
            invariant
                start <= j <= rel.components.len(),
                head == self@.components,
                comps@.map_values(|c: Component| c@) == head + rel@.components.subrange(
                    start as int,
                    j as int,
                ),
            decreases rel.components.len() - j,
        {
            let ghost old_comps = comps@;
            let c = rel.components[j].copy();
            comps.push(c);
            proof {
                lemma_view_index(rel.components@, j as int);
                assert(comps@.map_values(|c: Component| c@) =~= old_comps.map_values(
                    |c: Component| c@,
                ).push(c@));
                assert(head + rel@.components.subrange(start as int, j + 1) =~= (head
                    + rel@.components.subrange(start as int, j as int)).push(
                    rel@.components[j as int],
                ));
            }
            j = j + 1;
        }
        let raw = raw_join_exec(&self.raw, &rel.raw);
        let ghost result = PathView {
            absolute: self@.absolute,
            components: comps@.map_values(|c: Component| c@),
            raw: raw@,
        };
        proof {
            if skip_first {
                assert(tail =~= rel@.components.drop_first());
            } else {
                assert(tail =~= rel@.components);
            }
            assert(result.components =~= self@.components + tail);
            assert(result == join(self@, rel@));
            let cs = result.components;
            assert forall|k: int| 0 <= k < cs.len() implies match #[trigger] cs[k] {
                ComponentView::Normal(n) => valid_name(n),
                ComponentView::CurDir => k == 0 && !result.absolute,
                ComponentView::ParentDir => true,
            } by {
                if k < self@.components.len() {
                    assert(cs[k] == self@.components[k]);
                } else {
                    let t = k - self@.components.len();
                    assert(cs[k] == rel@.components[t + start]);
                    if t + start == 0 {
                        assert(!skip_first);
                    }
                }
            }
        }
        FsPath { absolute: self.absolute, components: comps, raw }
    }

    /// `Path::strip_prefix`.
    pub fn strip_prefix(&self, base: &FsPath) -> (r: Option<FsPath>)
        ensures
            match r {
                Some(rest) => strip_prefix(self@, base@) == Some(rest@),
                None => strip_prefix(self@, base@) is None,
            },
    {
        proof {
            use_type_invariant(self);
        }
        if !base.absolute && base.components.len() == 0 {
            let c = self.copy();
            proof {
                use_type_invariant(&c);
            }
            return Some(FsPath { absolute: c.absolute, components: c.components, raw: raw_trim_exec(&self.raw) });
        }
        let n = base.components.len();
        if self.absolute != base.absolute || n > self.components.len() {
            return None;
        }
        let mut i: usize = 0;
        while i < n
            invariant
                n == base.components.len(),
                n <= self.components.len(),
                i <= n,
                forall|k: int| 0 <= k < i ==> self@.components[k] == base@.components[k],
            decreases n - i,
        {
            proof {
                lemma_view_index(self.components@, i as int);
                lemma_view_index(base.components@, i as int);
            }
            if !self.components[i].same_as(&base.components[i]) {
                proof {
                    if self@.components.take(n as int) == base@.components {
                        assert(self@.components.take(n as int)[i as int]
                            == self@.components[i as int]);
                    }
                }
                return None;
            }
            i = i + 1;
        }
        proof {
            assert(self@.components.take(n as int) =~= base@.components);
        }
        let mut comps: Vec<Component> = Vec::new();
        let mut j: usize = n;
        while j < self.components.len()
            invariant
                n <= j <= self.components.len(),
                comps@.map_values(|c: Component| c@) == self@.components.subrange(
                    n as int,
                    j as int,
                ),
            decreases self.components.len() - j,
        {
            let ghost old_comps = comps@;
            let c = self.components[j].copy();
            comps.push(c);
            proof {
                lemma_view_index(self.components@, j as int);
                assert(comps@.map_values(|c: Component| c@) =~= old_comps.map_values(
                    |c: Component| c@,
                ).push(c@));
                assert(self@.components.subrange(n as int, j + 1) =~= self@.components.subrange(
                    n as int,
                    j as int,
                ).push(self@.components[j as int]));
            }
            j = j + 1;
        }
        let lead_cur = base.components.len() > 0 && match &base.components[0] {
            Component::CurDir => true,
            _ => false,
        };
        proof {
            if base.components.len() > 0 {
                lemma_view_index(base.components@, 0);
            }
        }
        let count: usize = if lead_cur {
            n - 1
        } else {
            n
        };
        let raw = raw_strip_exec(&self.raw, count);
        let ghost rest = PathView {
            absolute: false,
            components: comps@.map_values(|c: Component| c@),
            raw: raw@,
        };
        proof {
            assert(rest.components =~= self@.components.skip(n as int));
            let cs = rest.components;
            assert forall|k: int| 0 <= k < cs.len() implies match #[trigger] cs[k] {
                ComponentView::Normal(nm) => valid_name(nm),
                ComponentView::CurDir => k == 0 && !rest.absolute,
                ComponentView::ParentDir => true,
            } by {
                assert(cs[k] == self@.components[k + n]);
                if n == 0 {
                    assert(base@.absolute);
                    assert(self@.absolute);
                }
            }
        }
        Some(FsPath { absolute: false, components: comps, raw })
    }

    /// `Path::parent`.
    pub fn parent(&self) -> (r: Option<FsPath>)
        ensures
            match r {
                Some(q) => parent(self@) == Some(q@),
                None => parent(self@) is None,
            },
    {
        proof {
            use_type_invariant(self);
        }
        let k = self.components.len();
        if k == 0 {
            return None;
        }
        let mut comps: Vec<Component> = Vec::new();
        let mut i: usize = 0;
        while i + 1 < k
            invariant
                k == self.components.len(),
                k > 0,
                i + 1 <= k,
                comps@.map_values(|c: Component| c@) == self@.components.subrange(0, i as int),
            decreases k - i,
        {
            let ghost old_comps = comps@;
            let c = self.components[i].copy();
            comps.push(c);
            proof {
                lemma_view_index(self.components@, i as int);
                assert(comps@.map_values(|c: Component| c@) =~= old_comps.map_values(
                    |c: Component| c@,
                ).push(c@));
                assert(self@.components.subrange(0, i + 1) =~= self@.components.subrange(
                    0,
                    i as int,
                ).push(self@.components[i as int]));
            }
            i = i + 1;
        }
        let raw = raw_parent_exec(&self.raw);
        let ghost q = PathView {
            absolute: self@.absolute,
            components: comps@.map_values(|c: Component| c@),
            raw: raw@,
        };
        proof {
            assert(q.components =~= self@.components.drop_last());
            let cs = q.components;
            assert forall|j: int| 0 <= j < cs.len() implies match #[trigger] cs[j] {
                ComponentView::Normal(nm) => valid_name(nm),
                ComponentView::CurDir => j == 0 && !q.absolute,
                ComponentView::ParentDir => true,
            } by {
                assert(cs[j] == self@.components[j]);
            }
        }
        Some(FsPath { absolute: self.absolute, components: comps, raw })
    }
}


impl FsPath {
    /// The sort key of the path (see `path_key`).
    pub fn order_key(&self) -> (r: Vec<u16>)
        ensures
            r@ == path_key(self@),
    {
        let mut r: Vec<u16> = Vec::new();
        if self.absolute {
            r.push(1u16);
            r.push(0u16);
        }
        let ghost lead = r@;
        proof {
            assert(lead =~= if self@.absolute {
                seq![1u16, 0u16]
            } else {
                Seq::<u16>::empty()
            });
        }
        let mut i: usize = 0;
        while i < self.components.len()
            invariant
                i <= self.components.len(),
                lead == (if self@.absolute {
                    seq![1u16, 0u16]
                } else {
                    Seq::<u16>::empty()
                }),
                r@ == lead + components_key(self@.components.subrange(0, i as int)),
            decreases self.components.len() - i,
        {
            let ghost prev = r@;
            match &self.components[i] {
                Component::CurDir => {
                    r.push(2u16);
                    r.push(0u16);
                },
                Component::ParentDir => {
                    r.push(3u16);
                    r.push(0u16);
                },
                Component::Normal(n) => {
                    r.push(4u16);
                    let ghost mid = r@;
                    let mut j: usize = 0;
                    while j < n.len()
                        invariant
                            j <= n.len(),
                            r@ == mid + n@.subrange(0, j as int).map_values(
                                |b: u8| (b + 1) as u16,
                            ),
                        decreases n.len() - j,
                    {
                        let b: u16 = n[j] as u16;
                        r.push(b + 1);
                        j = j + 1;
                        assert(r@ =~= mid + n@.subrange(0, j as int).map_values(
                            |b: u8| (b + 1) as u16,
                        ));
                    }
                    r.push(0u16);
                    assert(n@.subrange(0, n.len() as int) =~= n@);
                },
            }
            proof {
                lemma_view_index(self.components@, i as int);
                let cs = self@.components.subrange(0, i + 1);
                assert(cs.drop_last() =~= self@.components.subrange(0, i as int));
                assert(cs.last() == self@.components[i as int]);
                assert(r@ =~= prev + component_key(cs.last()));
                assert(r@ =~= lead + components_key(cs));
            }
            i = i + 1;
        }
        proof {
            assert(self@.components.subrange(0, self.components.len() as int)
                =~= self@.components);
        }
        r
    }
}


/// The relative path made of one name.
pub open spec fn name_path(n: Seq<u8>) -> PathView {
    PathView { absolute: false, components: seq![ComponentView::Normal(n)], raw: n }
}

/// The path `.`.
pub open spec fn current_dir_path() -> PathView {
    PathView { absolute: false, components: seq![ComponentView::CurDir], raw: seq![dot()] }
}

impl FsPath {
    /// The file name as a relative path of one component
    /// (`PathBuf::from(path.file_name()?)`).
    pub fn file_name_path(&self) -> (r: Option<FsPath>)
        ensures
            match r {
                Some(q) => file_name(self@) matches Some(n) && q@ == name_path(n),
                None => file_name(self@) is None,
            },
    {
        proof {
            use_type_invariant(self);
        }
        let k = self.components.len();
        if k == 0 {
            return None;
        }
        proof {
            lemma_view_index(self.components@, k - 1);
        }
        match &self.components[k - 1] {
            Component::Normal(n) => {
                proof {
                    assert(self@.components[k - 1] == ComponentView::Normal(n@));
                }
                let q = FsPath::from_name(n);
                proof {
                    assert(q@ =~= name_path(n@));
                }
                Some(q)
            },
            _ => None,
        }
    }

    /// The path `.`.
    pub fn current_dir() -> (r: FsPath)
        ensures
            r@ == current_dir_path(),
    {
        let mut comps: Vec<Component> = Vec::new();
        comps.push(Component::CurDir);
        proof {
            assert(comps@.map_values(|c: Component| c@) =~= seq![ComponentView::CurDir]);
        }
        let raw: Vec<u8> = vec![46u8];
        assert(raw@ =~= seq![dot()]);
        FsPath { absolute: false, components: comps, raw }
    }
}


/// The proper ancestors of a path, nearest first (`Path::ancestors().skip(1)`):
/// the parent, its parent, and so on while there is one.
pub open spec fn proper_ancestors(p: PathView) -> Seq<PathView>
    decreases p.components.len(),
{
    match parent(p) {
        Some(q) => seq![q] + proper_ancestors(q),
        None => Seq::empty(),
    }
}

impl FsPath {
    /// The proper ancestors of the path, nearest first.
    pub fn proper_ancestors(&self) -> (r: Vec<FsPath>)
        ensures
            r@.map_values(|q: FsPath| q@) == proper_ancestors(self@),
        decreases self@.components.len(),
    {
        match self.parent() {
            None => Vec::new(),
            Some(q) => {
                let rest = q.proper_ancestors();
                let mut r: Vec<FsPath> = Vec::new();
                r.push(q);
                let ghost first = r@;
                let mut i: usize = 0;
                while i < rest.len()
                    invariant
                        i <= rest.len(),
                        r@.len() == i + 1,
                        r@.map_values(|x: FsPath| x@) == seq![first[0]@] + rest@.subrange(
                            0,
                            i as int,
                        ).map_values(|x: FsPath| x@),
                    decreases rest.len() - i,
                {
                    let ghost before = r@;
                    r.push(rest[i].copy());
                    proof {
                        assert(rest@.subrange(0, i + 1).map_values(|x: FsPath| x@) =~= rest@.subrange(
                            0,
                            i as int,
                        ).map_values(|x: FsPath| x@).push(rest@[i as int]@));
                        assert(r@.map_values(|x: FsPath| x@) =~= before.map_values(|x: FsPath| x@).push(
                            rest@[i as int]@,
                        ));
                    }
                    i = i + 1;
                }
                proof {
                    assert(rest@.subrange(0, rest.len() as int) =~= rest@);
                }
                r
            },
        }
    }
}

} // verus!
