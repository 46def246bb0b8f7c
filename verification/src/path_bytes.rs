//! The bytes of a path as `PathBuf` keeps them, on Unix: how joining,
//! taking the parent, stripping a prefix and replacing the extension change
//! the bytes. A path is shown by these bytes, not by its components, so
//! separators are shown as they were written.
use vstd::prelude::*;
use crate::path::{dot, leads_with_cur_dir, slash, stem_of};

verus! {

/// An empty piece or `.` between separators, which `Components` skips.
pub open spec fn is_skipped_piece(p: Seq<u8>) -> bool {
    p.len() == 0 || p == seq![dot()]
}

/// The bytes in front of the body that `Components` never trims: the root,
/// or the `.` that leads a relative path.
pub open spec fn body_start(r: Seq<u8>) -> int {
    if (r.len() > 0 && r[0] == slash()) || leads_with_cur_dir(r) {
        1
    } else {
        0
    }
}

/// Index of the last separator at or after `floor`, or -1.
pub open spec fn last_sep_from(r: Seq<u8>, floor: int) -> int
    decreases r.len(),
{
    if r.len() == 0 || r.len() <= floor {
        -1
    } else if r.last() == slash() {
        r.len() - 1
    } else {
        last_sep_from(r.drop_last(), floor)
    }
}

/// Where the last piece begins.
pub open spec fn back_start(r: Seq<u8>, floor: int) -> int {
    if last_sep_from(r, floor) >= 0 {
        last_sep_from(r, floor) + 1
    } else {
        floor
    }
}

/// What is kept when the last piece and the separator before it go.
pub open spec fn back_cut(r: Seq<u8>, floor: int) -> int {
    if last_sep_from(r, floor) >= 0 {
        last_sep_from(r, floor)
    } else {
        floor
    }
}

/// Whether the last piece after `floor` can be taken off.
pub open spec fn has_back_piece(r: Seq<u8>, floor: int) -> bool {
    0 <= floor < r.len() && 0 <= back_cut(r, floor) < r.len()
}

pub open spec fn back_piece(r: Seq<u8>, floor: int) -> Seq<u8> {
    r.subrange(back_start(r, floor), r.len() as int)
}

/// `Components::trim_right`: drops trailing empty and `.` pieces, never
/// below `floor` bytes.
pub open spec fn trim_back(r: Seq<u8>, floor: int) -> Seq<u8>
    decreases r.len(),
{
    if has_back_piece(r, floor) && is_skipped_piece(back_piece(r, floor)) {
        trim_back(r.take(back_cut(r, floor)), floor)
    } else {
        r
    }
}

/// `Components::next_back`: what remains once the last component (and
/// the skipped pieces after it) is taken off; none when no component is
/// left after `floor`.
pub open spec fn pop_back(r: Seq<u8>, floor: int) -> Option<Seq<u8>>
    decreases r.len(),
{
    if has_back_piece(r, floor) {
        if is_skipped_piece(back_piece(r, floor)) {
            pop_back(r.take(back_cut(r, floor)), floor)
        } else {
            Some(r.take(back_cut(r, floor)))
        }
    } else {
        None
    }
}

/// Index of the first separator, or -1.
pub open spec fn first_sep(r: Seq<u8>) -> int
    decreases r.len(),
{
    if r.len() == 0 {
        -1
    } else if r[0] == slash() {
        0
    } else if first_sep(r.drop_first()) >= 0 {
        first_sep(r.drop_first()) + 1
    } else {
        -1
    }
}

/// Where the first piece ends.
pub open spec fn front_end(r: Seq<u8>) -> int {
    if first_sep(r) >= 0 {
        first_sep(r)
    } else {
        r.len() as int
    }
}

/// Where the rest begins once the first piece and its separator go.
pub open spec fn front_cut(r: Seq<u8>) -> int {
    if first_sep(r) >= 0 {
        first_sep(r) + 1
    } else {
        r.len() as int
    }
}

pub open spec fn has_front_piece(r: Seq<u8>) -> bool {
    r.len() > 0 && 0 < front_cut(r) <= r.len()
}

/// `Components::trim_left`: drops leading empty and `.` pieces.
pub open spec fn trim_front(r: Seq<u8>) -> Seq<u8>
    decreases r.len(),
{
    if has_front_piece(r) && is_skipped_piece(r.take(front_end(r))) {
        trim_front(r.skip(front_cut(r)))
    } else {
        r
    }
}

/// `Components::next` taken `count` times in the body.
pub open spec fn skip_front(r: Seq<u8>, count: nat) -> Seq<u8>
    decreases r.len(),
{
    if count > 0 && has_front_piece(r) {
        if is_skipped_piece(r.take(front_end(r))) {
            skip_front(r.skip(front_cut(r)), count)
        } else {
            skip_front(r.skip(front_cut(r)), (count - 1) as nat)
        }
    } else {
        r
    }
}

/// `PathBuf::push`: an absolute path replaces the base; otherwise a
/// separator goes between, unless the base is empty or ends with one.
pub open spec fn raw_join(base: Seq<u8>, rel: Seq<u8>) -> Seq<u8> {
    if rel.len() > 0 && rel[0] == slash() {
        rel
    } else if base.len() > 0 && base.last() != slash() {
        base + seq![slash()] + rel
    } else {
        base + rel
    }
}

/// `Path::parent`: the bytes before the last component, trimmed.
pub open spec fn raw_parent(r: Seq<u8>) -> Seq<u8> {
    match pop_back(r, body_start(r)) {
        Some(rest) => trim_back(rest, body_start(r)),
        None => Seq::empty(),
    }
}

/// `PathBuf::set_extension`: the bytes up to the end of the file stem,
/// then `.` and the extension unless it is empty.
pub open spec fn raw_with_extension(r: Seq<u8>, ext: Seq<u8>) -> Seq<u8> {
    let t = trim_back(r, body_start(r));
    let s = back_start(t, body_start(r));
    t.take(s + stem_of(t.subrange(s, t.len() as int)).len()) + if ext.len() > 0 {
        seq![dot()] + ext
    } else {
        Seq::empty()
    }
}

/// `Path::strip_prefix` after `body_count` components of the body (and the
/// root or leading `.`, when `r` has one) were matched.
pub open spec fn raw_strip(r: Seq<u8>, body_count: nat) -> Seq<u8> {
    let start = if body_start(r) == 1 {
        r.skip(1)
    } else {
        r
    };
    trim_back(trim_front(skip_front(start, body_count)), 0)
}

// ---------------------------------------------------------------------------
// Lemmas
// ---------------------------------------------------------------------------
pub proof fn lemma_last_sep_from(r: Seq<u8>, floor: int)
    requires
        floor >= 0,
    ensures
        last_sep_from(r, floor) == -1 || (floor <= last_sep_from(r, floor) < r.len()
            && r[last_sep_from(r, floor)] == slash()),
        forall|k: int|
            last_sep_from(r, floor) < k < r.len() && floor <= k ==> r[k] != slash(),
    decreases r.len(),
{
    if !(r.len() == 0 || r.len() <= floor) {
        assert(r.last() == r[r.len() - 1]);
        if r.last() != slash() {
            let d = r.drop_last();
            lemma_last_sep_from(d, floor);
            assert(last_sep_from(r, floor) == last_sep_from(d, floor));
            let i = last_sep_from(d, floor);
            assert(i == -1 || (floor <= i < d.len() && d[i] == slash()));
            if i >= 0 {
                assert(r[i] == d[i]);
            }
            assert forall|k: int| last_sep_from(r, floor) < k < r.len() && floor <= k implies r[k]
                != slash() by {
                if k < r.len() - 1 {
                    assert(0 <= k < d.len());
                    assert(r[k] == d[k]);
                }
            }
        }
    }
}

pub proof fn lemma_first_sep(r: Seq<u8>)
    ensures
        first_sep(r) == -1 || (0 <= first_sep(r) < r.len() && r[first_sep(r)] == slash()),
        forall|k: int| 0 <= k < r.len() && (first_sep(r) == -1 || k < first_sep(r)) ==> r[k]
            != slash(),
    decreases r.len(),
{
    if r.len() > 0 && r[0] != slash() {
        lemma_first_sep(r.drop_first());
        assert forall|k: int| 0 <= k < r.len() && (first_sep(r) == -1 || k < first_sep(r)) implies r[k]
            != slash() by {
            if k > 0 {
                assert(r[k] == r.drop_first()[k - 1]);
            }
        }
    }
}

// ---------------------------------------------------------------------------
// Executable counterparts, on a prefix `r.take(end)` or a suffix `r.skip(begin)`
// ---------------------------------------------------------------------------
/// The bytes `r[a..b]`.
pub fn copy_range(r: &Vec<u8>, a: usize, b: usize) -> (c: Vec<u8>)
    requires
        a <= b <= r.len(),
    ensures
        c@ == r@.subrange(a as int, b as int),
{
    let mut c: Vec<u8> = Vec::new();
    let mut i: usize = a;
    while i < b
        invariant
            a <= i <= b <= r.len(),
            c@ == r@.subrange(a as int, i as int),
        decreases b - i,
    {
        c.push(r[i]);
        i = i + 1;
        assert(c@ =~= r@.subrange(a as int, i as int));
    }
    c
}

fn last_sep_exec(r: &Vec<u8>, end: usize, floor: usize) -> (i: Option<usize>)
    requires
        end <= r.len(),
    ensures
        match i {
            Some(i) => last_sep_from(r@.take(end as int), floor as int) == i,
            None => last_sep_from(r@.take(end as int), floor as int) == -1,
        },
{
    let mut j: usize = end;
    while j > floor
        invariant
            j <= end <= r.len(),
            last_sep_from(r@.take(end as int), floor as int) == last_sep_from(
                r@.take(j as int),
                floor as int,
            ),
        decreases j,
    {
        assert(r@.take(j as int).last() == r@[j - 1]);
        if r[j - 1] == 47u8 {
            return Some(j - 1);
        }
        assert(r@.take(j as int).drop_last() =~= r@.take(j - 1));
        j = j - 1;
    }
    None
}

fn is_skipped_exec(r: &Vec<u8>, a: usize, b: usize) -> (s: bool)
    requires
        a <= b <= r.len(),
    ensures
        s == is_skipped_piece(r@.subrange(a as int, b as int)),
{
    if a == b {
        assert(r@.subrange(a as int, b as int).len() == 0);
        true
    } else if b - a == 1 && r[a] == 46u8 {
        assert(r@.subrange(a as int, b as int) =~= seq![dot()]);
        true
    } else {
        let ghost sub = r@.subrange(a as int, b as int);
        if b - a == 1 {
            assert(sub[0] == r@[a as int]);
            assert(seq![dot()][0] == dot());
            assert(sub != seq![dot()]);
        } else {
            assert(sub.len() != seq![dot()].len());
        }
        false
    }
}

/// Where the last piece of `r.take(end)` begins and what is kept without it.
fn back_step(r: &Vec<u8>, end: usize, floor: usize) -> (res: (usize, usize))
    requires
        floor < end <= r.len(),
    ensures
        res.0 == back_start(r@.take(end as int), floor as int),
        res.1 == back_cut(r@.take(end as int), floor as int),
        res.1 < end,
        res.1 <= res.0 <= end,
        floor <= res.1,
{
    proof {
        lemma_last_sep_from(r@.take(end as int), floor as int);
    }
    match last_sep_exec(r, end, floor) {
        Some(i) => (i + 1, i),
        None => (floor, floor),
    }
}

/// `trim_back` of `r.take(end)`, as a length.
pub fn trim_back_len(r: &Vec<u8>, end: usize, floor: usize) -> (e: usize)
    requires
        end <= r.len(),
    ensures
        e <= end,
        end >= floor ==> e >= floor,
        r@.take(e as int) == trim_back(r@.take(end as int), floor as int),
{
    let mut e: usize = end;
    while e > floor
        invariant
            e <= end <= r.len(),
            end >= floor ==> e >= floor,
            trim_back(r@.take(end as int), floor as int) == trim_back(r@.take(e as int), floor as int),
        decreases e,
    {
        let (start, cut) = back_step(r, e, floor);
        let skipped = is_skipped_exec(r, start, e);
        let ghost t = r@.take(e as int);
        proof {
            assert(t.subrange(start as int, e as int) =~= r@.subrange(start as int, e as int));
            assert(t.take(cut as int) =~= r@.take(cut as int));
        }
        if !skipped {
            return e;
        }
        e = cut;
    }
    e
}

/// `pop_back` of `r.take(end)`, as a length.
fn pop_back_len(r: &Vec<u8>, end: usize, floor: usize) -> (e: Option<usize>)
    requires
        end <= r.len(),
    ensures
        match e {
            Some(e) => e < end && pop_back(r@.take(end as int), floor as int) == Some(
                r@.take(e as int),
            ),
            None => pop_back(r@.take(end as int), floor as int) is None,
        },
{
    let mut e: usize = end;
    while e > floor
        invariant
            e <= end <= r.len(),
            pop_back(r@.take(end as int), floor as int) == pop_back(r@.take(e as int), floor as int),
        decreases e,
    {
        let (start, cut) = back_step(r, e, floor);
        let skipped = is_skipped_exec(r, start, e);
        let ghost t = r@.take(e as int);
        proof {
            assert(t.subrange(start as int, e as int) =~= r@.subrange(start as int, e as int));
            assert(t.take(cut as int) =~= r@.take(cut as int));
        }
        if !skipped {
            return Some(cut);
        }
        e = cut;
    }
    None
}

fn first_sep_exec(r: &Vec<u8>, begin: usize) -> (k: Option<usize>)
    requires
        begin <= r.len(),
    ensures
        match k {
            Some(k) => begin <= k < r.len() && first_sep(r@.skip(begin as int)) == k - begin,
            None => first_sep(r@.skip(begin as int)) == -1,
        },
{
    let mut j: usize = begin;
    while j < r.len()
        invariant
            begin <= j <= r.len(),
            first_sep(r@.skip(begin as int)) == (if first_sep(r@.skip(j as int)) >= 0 {
                first_sep(r@.skip(j as int)) + (j - begin)
            } else {
                -1
            }),
        decreases r.len() - j,
    {
        assert(r@.skip(j as int)[0] == r@[j as int]);
        if r[j] == 47u8 {
            return Some(j);
        }
        assert(r@.skip(j as int).drop_first() =~= r@.skip(j + 1));
        j = j + 1;
    }
    assert(r@.skip(j as int).len() == 0);
    None
}

/// Where the first piece of `r.skip(begin)` ends and where the rest begins.
fn front_step(r: &Vec<u8>, begin: usize) -> (res: (usize, usize))
    requires
        begin < r.len(),
    ensures
        res.0 == begin + front_end(r@.skip(begin as int)),
        res.1 == begin + front_cut(r@.skip(begin as int)),
        begin <= res.0 <= res.1 <= r.len(),
        begin < res.1,
{
    match first_sep_exec(r, begin) {
        Some(k) => (k, k + 1),
        None => (r.len(), r.len()),
    }
}

/// `trim_front` of `r.skip(begin)`, as a start.
fn trim_front_start(r: &Vec<u8>, begin: usize) -> (b: usize)
    requires
        begin <= r.len(),
    ensures
        begin <= b <= r.len(),
        r@.skip(b as int) == trim_front(r@.skip(begin as int)),
{
    let mut b: usize = begin;
    while b < r.len()
        invariant
            begin <= b <= r.len(),
            trim_front(r@.skip(begin as int)) == trim_front(r@.skip(b as int)),
        decreases r.len() - b,
    {
        let (pend, cut) = front_step(r, b);
        let skipped = is_skipped_exec(r, b, pend);
        let ghost t = r@.skip(b as int);
        proof {
            assert(t.take(pend - b) =~= r@.subrange(b as int, pend as int));
            assert(t.skip(cut - b) =~= r@.skip(cut as int));
        }
        if !skipped {
            return b;
        }
        b = cut;
    }
    proof {
        assert(r@.skip(b as int).len() == 0);
    }
    b
}

/// `skip_front` of `r.skip(begin)`, as a start.
fn skip_front_start(r: &Vec<u8>, begin: usize, count: usize) -> (b: usize)
    requires
        begin <= r.len(),
    ensures
        begin <= b <= r.len(),
        r@.skip(b as int) == skip_front(r@.skip(begin as int), count as nat),
{
    let mut b: usize = begin;
    let mut left: usize = count;
    while left > 0 && b < r.len()
        invariant
            begin <= b <= r.len(),
            left <= count,
            skip_front(r@.skip(begin as int), count as nat) == skip_front(
                r@.skip(b as int),
                left as nat,
            ),
        decreases r.len() - b,
    {
        let (pend, cut) = front_step(r, b);
        let skipped = is_skipped_exec(r, b, pend);
        let ghost t = r@.skip(b as int);
        proof {
            assert(t.take(pend - b) =~= r@.subrange(b as int, pend as int));
            assert(t.skip(cut - b) =~= r@.skip(cut as int));
        }
        if !skipped {
            left = left - 1;
        }
        b = cut;
    }
    b
}

/// The bytes of `base` joined with `rel`.
pub fn raw_join_exec(base: &Vec<u8>, rel: &Vec<u8>) -> (r: Vec<u8>)
    ensures
        r@ == raw_join(base@, rel@),
{
    if rel.len() > 0 && rel[0] == 47u8 {
        return copy_range(rel, 0, rel.len());
    }
    let mut r = copy_range(base, 0, base.len());
    if base.len() > 0 && base[base.len() - 1] != 47u8 {
        r.push(47u8);
    }
    let mut i: usize = 0;
    let ghost head = r@;
    while i < rel.len()
        invariant
            i <= rel.len(),
            r@ == head + rel@.take(i as int),
        decreases rel.len() - i,
    {
        r.push(rel[i]);
        i = i + 1;
        assert(r@ =~= head + rel@.take(i as int));
    }
    proof {
        assert(base@.subrange(0, base.len() as int) =~= base@);
        assert(rel@.take(rel.len() as int) =~= rel@);
        assert(rel@.subrange(0, rel.len() as int) =~= rel@);
        if base.len() > 0 {
            assert(base@.last() == base@[base.len() - 1]);
        }
    }
    r
}

/// The bytes of the parent of `r`.
pub fn raw_parent_exec(r: &Vec<u8>) -> (p: Vec<u8>)
    ensures
        p@ == raw_parent(r@),
{
    let f: usize = if (r.len() > 0 && r[0] == 47u8) || (r.len() >= 1 && r[0] == 46u8 && (r.len()
        == 1 || r[1] == 47u8)) {
        1
    } else {
        0
    };
    proof {
        assert(r@.take(r.len() as int) =~= r@);
    }
    match pop_back_len(r, r.len(), f) {
        Some(e) => {
            let t = trim_back_len(r, e, f);
            proof {
                assert(r@.take(e as int).take(t as int) =~= r@.take(t as int));
            }
            copy_range(r, 0, t)
        },
        None => Vec::new(),
    }
}

/// The bytes of `r` with its file stem followed by `.` and `ext`.
pub fn raw_with_extension_exec(r: &Vec<u8>, ext: &Vec<u8>) -> (p: Vec<u8>)
    ensures
        p@ == raw_with_extension(r@, ext@),
{
    let f: usize = if (r.len() > 0 && r[0] == 47u8) || (r.len() >= 1 && r[0] == 46u8 && (r.len()
        == 1 || r[1] == 47u8)) {
        1
    } else {
        0
    };
    proof {
        assert(r@.take(r.len() as int) =~= r@);
    }
    let t = trim_back_len(r, r.len(), f);
    let ghost tv = r@.take(t as int);
    proof {
        lemma_last_sep_from(tv, f as int);
    }
    let s: usize = if t > f {
        let (s, _cut) = back_step(r, t, f);
        s
    } else {
        f
    };
    let name = copy_range(r, s, t);
    let stem = crate::path::stem_bytes(&name);
    proof {
        assert(name@ =~= tv.subrange(s as int, t as int));
        crate::path::lemma_last_dot_bounds_pub(name@);
        assert(stem@.len() <= name@.len());
    }
    let mut p = copy_range(r, 0, s + stem.len());
    if ext.len() == 0 {
        proof {
            assert(r@.subrange(0, s + stem.len()) =~= tv.take(s + stem.len()));
            assert(p@ =~= tv.take(s + stem.len()) + Seq::<u8>::empty());
        }
        return p;
    }
    p.push(46u8);
    let mut i: usize = 0;
    let ghost head = p@;
    while i < ext.len()
        invariant
            i <= ext.len(),
            p@ == head + ext@.take(i as int),
        decreases ext.len() - i,
    {
        p.push(ext[i]);
        i = i + 1;
        assert(p@ =~= head + ext@.take(i as int));
    }
    proof {
        assert(ext@.take(ext.len() as int) =~= ext@);
        assert(r@.subrange(0, s + stem.len()) =~= tv.take(s + stem.len()));
    }
    p
}

/// The bytes left of `r` after `body_count` body components (and its root
/// or leading `.`) were matched by a prefix.
pub fn raw_strip_exec(r: &Vec<u8>, body_count: usize) -> (p: Vec<u8>)
    ensures
        p@ == raw_strip(r@, body_count as nat),
{
    let lead = (r.len() > 0 && r[0] == 47u8) || (r.len() >= 1 && r[0] == 46u8 && (r.len() == 1
        || r[1] == 47u8));
    let begin: usize = if lead {
        1
    } else {
        0
    };
    proof {
        assert(r@.skip(0) =~= r@);
    }
    let b1 = skip_front_start(r, begin, body_count);
    let b2 = trim_front_start(r, b1);
    let rest = copy_range(r, b2, r.len());
    proof {
        assert(rest@ =~= r@.skip(b2 as int));
        assert(rest@.take(rest.len() as int) =~= rest@);
    }
    let e = trim_back_len(&rest, rest.len(), 0);
    copy_range(&rest, 0, e)
}

/// The bytes of `r` with trailing empty and `.` pieces trimmed, keeping its
/// root or leading `.`.
pub fn raw_trim_exec(r: &Vec<u8>) -> (p: Vec<u8>)
    ensures
        p@ == trim_back(r@, body_start(r@)),
{
    let f: usize = if (r.len() > 0 && r[0] == 47u8) || (r.len() >= 1 && r[0] == 46u8 && (r.len()
        == 1 || r[1] == 47u8)) {
        1
    } else {
        0
    };
    proof {
        assert(r@.take(r.len() as int) =~= r@);
    }
    let e = trim_back_len(r, r.len(), f);
    copy_range(r, 0, e)
}

} // verus!
