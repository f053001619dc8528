//! The virtual filesystem engine: the entry graph that materialises the
//! synthetic namespace, the path sanitiser that turns tagged paths into
//! directory entries, and the frontend that answers filesystem callbacks.

pub mod entries;
pub mod inode_generator;

pub use entries::{Attr, EntryType, FileKind};
pub use inode_generator::INodeGenerator;

use vstd::prelude::*;

use crate::db::{lex_spec, sanitised_query, simple_fmt, to_sql_spec, views_of, Database, SanitisedStoredQuery, SimpleTagFormatter, StoredQuery, Tag, TagMapping};
use crate::text::{byte_len, chars_to_string, dec_u64_chars, is_dec_digit, spec_dec, str_eq, str_to_chars};
use entries::{entry_attr, Entries, Entry};
use inode_generator::ROOT_INODE;

verus! {

/// The path with every trailing `/` removed.
pub open spec fn strip_trailing_slashes(p: Seq<char>) -> Seq<char>
    decreases p.len(),
{
    if p.len() > 0 && p.last() == '/' {
        strip_trailing_slashes(p.drop_last())
    } else {
        p
    }
}

/// The position of the last `/`, or -1 if there is none.
pub open spec fn last_slash(t: Seq<char>) -> int
    decreases t.len(),
{
    if t.len() == 0 {
        -1
    } else if t.last() == '/' {
        t.len() - 1
    } else {
        last_slash(t.drop_last())
    }
}

proof fn lemma_last_slash_range(t: Seq<char>)
    ensures
        -1 <= last_slash(t) < t.len(),
    decreases t.len(),
{
    if t.len() > 0 && t.last() != '/' {
        lemma_last_slash_range(t.drop_last());
    }
}

/// The final component of a path: what stands after the last `/`, once
/// trailing slashes are dropped.
pub open spec fn basename_spec(p: Seq<char>) -> Seq<char> {
    let t = strip_trailing_slashes(p);
    t.skip(last_slash(t) + 1)
}

/// Whether a path has a usable final component: non-empty, and a real
/// name rather than `.` or `..`.
pub open spec fn has_basename(p: Seq<char>) -> bool {
    basename_spec(p).len() > 0 && basename_spec(p) != "."@ && basename_spec(p) != ".."@
}

/// The final component of a path, when it has a usable one.
pub fn try_basename(path: &str) -> (r: Option<String>)
    ensures
        match r {
            Some(b) => has_basename(path@) && b@ == basename_spec(path@),
            None => !has_basename(path@),
        },
{
    let cs = str_to_chars(path);
    let ghost full = path@;
    // Drop trailing slashes.
    let mut e = cs.len();
    proof {
        assert(full.take(cs.len() as int) =~= full);
    }
    while e > 0 && cs[e - 1] == '/'
        invariant
            cs@ == full,
            e <= full.len(),
            strip_trailing_slashes(full) == strip_trailing_slashes(full.take(e as int)),
        decreases e,
    {
        e -= 1;
        proof {
            assert(full.take(e + 1).last() == full[e as int]);
            assert(full.take(e + 1).drop_last() =~= full.take(e as int));
        }
    }
    let ghost t = strip_trailing_slashes(full);
    proof {
        if e > 0 {
            assert(full.take(e as int).last() == full[e - 1]);
        }
        assert(strip_trailing_slashes(full.take(e as int)) == full.take(e as int));
        assert(t == full.take(e as int));
    }
    // Find the last slash before `e`.
    let mut j = e;
    proof {
        assert(t.take(e as int) =~= t);
    }
    while j > 0 && cs[j - 1] != '/'
        invariant
            cs@ == full,
            j <= e <= full.len(),
            t == full.take(e as int),
            last_slash(t) == last_slash(t.take(j as int)),
            forall|k: int| j <= k < e ==> full[k] != '/',
        decreases j,
    {
        j -= 1;
        proof {
            assert(t.take(j + 1).last() == t[j as int]);
            assert(t[j as int] == full[j as int]);
            assert(t.take(j + 1).drop_last() =~= t.take(j as int));
        }
    }
    proof {
        if j > 0 {
            assert(t.take(j as int).last() == t[j - 1]);
            assert(t[j - 1] == full[j - 1]);
            assert(last_slash(t.take(j as int)) == j - 1);
        } else {
            assert(t.take(0) =~= Seq::<char>::empty());
        }
        assert(last_slash(t) == j - 1);
        lemma_last_slash_range(t);
    }
    // The basename is t[j .. e).
    let mut out: Vec<char> = Vec::new();
    let mut k = j;
    proof {
        assert(t.skip(j as int).take(0) =~= Seq::<char>::empty());
        assert(out@ =~= t.skip(j as int).take(0));
    }
    while k < e
        invariant
            cs@ == full,
            j <= k <= e <= full.len(),
            t == full.take(e as int),
            out@ == t.skip(j as int).take((k - j) as int),
        decreases e - k,
    {
        out.push(cs[k]);
        k += 1;
        proof {
            assert(t.skip(j as int)[k - 1 - j] == t[k - 1]);
            assert(t[k - 1] == full[k - 1]);
            assert(t.skip(j as int).take((k - j) as int) =~= t.skip(j as int).take(
                (k - 1 - j) as int,
            ).push(t.skip(j as int)[k - 1 - j]));
        }
    }
    proof {
        assert(t.skip(j as int).take((e - j) as int) =~= t.skip(j as int));
        assert(out@ == basename_spec(full));
    }
    if out.len() == 0 {
        return None;
    }
    let b = chars_to_string(&out);
    let dot = String::from_str(".");
    let dotdot = String::from_str("..");
    if b == dot || b == dotdot {
        return None;
    }
    Some(b)
}


/// A value with every `/` replaced by `_`, fit to stand as one path
/// component.
pub open spec fn sanitise_value_spec(v: Seq<char>) -> Seq<char> {
    v.map_values(|c: char| if c == '/' { '_' } else { c })
}

/// Convert a value from the database into a value that is suitable for
/// use as a component of a path in the filesystem.
pub fn sanitise_value(path: &str) -> (r: String)
    ensures
        r@ == sanitise_value_spec(path@),
{
    let cs = str_to_chars(path);
    let mut out: Vec<char> = Vec::new();
    let mut i: usize = 0;
    proof {
        assert(out@ =~= sanitise_value_spec(path@).take(0));
    }
    while i < cs.len()
        invariant
            cs@ == path@,
            i <= path@.len(),
            out@ == sanitise_value_spec(path@).take(i as int),
        decreases cs@.len() - i,
    {
        let c = cs[i];
        let c2 = if c == '/' {
            '_'
        } else {
            c
        };
        out.push(c2);
        i += 1;
        proof {
            let m = sanitise_value_spec(path@);
            assert(m[i - 1] == c2);
            assert(m.take(i as int) =~= m.take(i - 1).push(m[i - 1]));
        }
    }
    proof {
        let m = sanitise_value_spec(path@);
        assert(m.take(m.len() as int) =~= m);
    }
    chars_to_string(&out)
}

/// Whether the path at position `i` shares its basename with another
/// sibling.
pub open spec fn collides(sibs: Seq<Seq<char>>, i: int) -> bool {
    exists|j: int|
        0 <= j < sibs.len() && j != i && basename_spec(#[trigger] sibs[j]) == basename_spec(
            sibs[i],
        )
}

/// The displayed name of the path at position `i` among its siblings: the
/// basename, disambiguated with `.<position>` when another sibling shares
/// that basename.
pub open spec fn sanitise_path_spec(path: Seq<char>, i: int, sibs: Seq<Seq<char>>) -> Seq<char> {
    if exists|j: int|
        0 <= j < sibs.len() && j != i && basename_spec(#[trigger] sibs[j]) == basename_spec(
            path,
        ) {
        basename_spec(path) + seq!['.'] + spec_dec(i as nat)
    } else {
        basename_spec(path)
    }
}

/// Converts a full path (such as "my/long/path") to its final component,
/// disambiguated against the sibling list when another sibling has the
/// same final component.
pub fn sanitise_path(path: &str, path_idx: usize, siblings: &Vec<String>) -> (r: String)
    requires
        has_basename(path@),
        forall|k: int| 0 <= k < siblings@.len() ==> has_basename(#[trigger] siblings@[k]@),
    ensures
        r@ == sanitise_path_spec(
            path@,
            path_idx as int,
            siblings@.map_values(|s: String| s@),
        ),
{
    let ghost sibs = siblings@.map_values(|s: String| s@);
    let base = match try_basename(path) {
        Some(b) => b,
        None => {
            proof {
                assert(false);
            }
            String::new()
        },
    };
    let n = siblings.len();
    let mut j: usize = 0;
    let mut any_same: bool = false;
    while j < n
        invariant
            n == sibs.len(),
            sibs == siblings@.map_values(|s: String| s@),
            forall|k: int| 0 <= k < siblings@.len() ==> has_basename(#[trigger] siblings@[k]@),
            j <= n,
            base@ == basename_spec(path@),
            any_same == exists|k: int|
                0 <= k < j && k != path_idx as int && basename_spec(#[trigger] sibs[k])
                    == basename_spec(path@),
        decreases n - j,
    {
        proof {
            assert(sibs[j as int] == siblings@[j as int]@);
        }
        if j != path_idx {
            let sb = match try_basename(siblings[j].as_str()) {
                Some(b) => b,
                None => {
                    proof {
                        assert(false);
                    }
                    String::new()
                },
            };
            if sb == base {
                any_same = true;
            }
        }
        j += 1;
        proof {
            if any_same {
            } else {
                assert forall|k: int|
                    0 <= k < j && k != path_idx as int implies basename_spec(
                    #[trigger] sibs[k],
                ) != basename_spec(path@) by {}
            }
        }
    }
    if any_same {
        let mut out = str_to_chars(base.as_str());
        out.push('.');
        let mut digits = dec_u64_chars(path_idx as u64);
        let ghost gd = digits@;
        let mut di: usize = 0;
        while di < digits.len()
            invariant
                digits@ == gd,
                di <= gd.len(),
                out@ == basename_spec(path@).push('.') + gd.take(di as int),
            decreases gd.len() - di,
        {
            out.push(digits[di]);
            di += 1;
            proof {
                assert(gd.take(di as int) =~= gd.take(di - 1).push(gd[di - 1]));
                assert(out@ =~= (basename_spec(path@).push('.') + gd.take(di - 1)).push(
                    gd[di - 1],
                ));
            }
        }
        proof {
            assert(gd.take(gd.len() as int) =~= gd);
            assert(basename_spec(path@).push('.') =~= basename_spec(path@) + seq!['.']);
            assert(basename_spec(path@).push('.') + gd =~= basename_spec(path@) + seq!['.'] + gd);
            assert(path_idx as nat == path_idx as int as nat);
        }
        chars_to_string(&out)
    } else {
        base
    }
}

proof fn lemma_concat_parts(b1: Seq<char>, d1: Seq<char>, b2: Seq<char>, d2: Seq<char>)
    requires
        b1 + seq!['.'] + d1 == b2 + seq!['.'] + d2,
        b1.len() == b2.len(),
    ensures
        b1 == b2,
        d1 == d2,
{
    assert(seq!['.'].len() == 1);
    assert((b1 + seq!['.'] + d1).len() == b1.len() + 1 + d1.len());
    assert((b2 + seq!['.'] + d2).len() == b2.len() + 1 + d2.len());
    assert(d1.len() == d2.len());
    assert forall|k: int| 0 <= k < b1.len() implies b1[k] == b2[k] by {
        assert((b1 + seq!['.'] + d1)[k] == b1[k]);
        assert((b2 + seq!['.'] + d2)[k] == b2[k]);
    }
    assert(b1 =~= b2);
    assert forall|k: int| 0 <= k < d1.len() implies d1[k] == d2[k] by {
        assert((b1 + seq!['.'] + d1)[b1.len() + 1 + k] == d1[k]);
        assert((b2 + seq!['.'] + d2)[b2.len() + 1 + k] == d2[k]);
    }
    assert(d1 =~= d2);
}

proof fn lemma_dotted_distinct(b1: Seq<char>, d1: Seq<char>, b2: Seq<char>, d2: Seq<char>)
    requires
        b1.len() < b2.len(),
        d1.len() >= 1,
        d2.len() >= 1,
        forall|k: int| 0 <= k < d1.len() ==> is_dec_digit(#[trigger] d1[k]),
    ensures
        b1 + seq!['.'] + d1 != b2 + seq!['.'] + d2,
{
    assert(!is_dec_digit('.')) by {
        assert(forall|d: int| 0 <= d < 10 ==> crate::text::spec_digit(d) != '.');
    }
    if b1 + seq!['.'] + d1 == b2 + seq!['.'] + d2 {
        let l = b2.len() as int;
        assert(seq!['.'].len() == 1);
        assert((b1 + seq!['.'] + d1).len() == b1.len() + 1 + d1.len());
        assert((b2 + seq!['.'] + d2).len() == b2.len() + 1 + d2.len());
        assert((b2 + seq!['.'] + d2)[l] == '.');
        assert(d1.len() == b2.len() + 1 + d2.len() - b1.len() - 1);
        assert(l - b1.len() - 1 < d1.len());
        assert((b1 + seq!['.'] + d1)[l] == d1[l - b1.len() - 1]);
        assert(is_dec_digit(d1[l - b1.len() - 1]));
        assert(false);
    }
}

/// Sanitise-path determinism: within one sibling list whose paths all have
/// usable basenames, the displayed names are pairwise distinct — provided
/// no sibling's plain basename spells another's disambiguated name (that
/// is, no basename equals a colliding sibling's basename followed by `.`
/// and that sibling's position).
pub proof fn lemma_sanitise_path_unique(sibs: Seq<Seq<char>>, i: int, j: int)
    requires
        0 <= i < sibs.len(),
        0 <= j < sibs.len(),
        i != j,
        forall|k: int| 0 <= k < sibs.len() ==> has_basename(#[trigger] sibs[k]),
        forall|a: int, b: int|
            0 <= a < sibs.len() && 0 <= b < sibs.len() && collides(sibs, a) && !collides(sibs, b)
                ==> basename_spec(#[trigger] sibs[b]) != basename_spec(#[trigger] sibs[a])
                + seq!['.'] + spec_dec(a as nat),
    ensures
        sanitise_path_spec(sibs[i], i, sibs) != sanitise_path_spec(sibs[j], j, sibs),
{
    let bi = basename_spec(sibs[i]);
    let bj = basename_spec(sibs[j]);
    let ni = sanitise_path_spec(sibs[i], i, sibs);
    let nj = sanitise_path_spec(sibs[j], j, sibs);
    crate::text::lemma_dec_nonempty(i as nat);
    crate::text::lemma_dec_nonempty(j as nat);
    crate::text::lemma_dec_digits_only(i as nat);
    crate::text::lemma_dec_digits_only(j as nat);
    if !collides(sibs, i) && !collides(sibs, j) {
        assert(ni == bi && nj == bj);
        if ni == nj {
            assert(basename_spec(sibs[j]) == basename_spec(sibs[i]));
            assert(collides(sibs, i));
            assert(false);
        }
    } else if collides(sibs, i) && collides(sibs, j) {
        assert(ni == bi + seq!['.'] + spec_dec(i as nat));
        assert(nj == bj + seq!['.'] + spec_dec(j as nat));
        if ni == nj {
            if bi.len() == bj.len() {
                lemma_concat_parts(bi, spec_dec(i as nat), bj, spec_dec(j as nat));
                crate::text::lemma_dec_injective(i as nat, j as nat);
                assert(false);
            } else if bi.len() < bj.len() {
                lemma_dotted_distinct(bi, spec_dec(i as nat), bj, spec_dec(j as nat));
                assert(false);
            } else {
                lemma_dotted_distinct(bj, spec_dec(j as nat), bi, spec_dec(i as nat));
                assert(false);
            }
        }
    } else if collides(sibs, i) {
        assert(ni == bi + seq!['.'] + spec_dec(i as nat));
        assert(nj == bj);
        if ni == nj {
            assert(basename_spec(sibs[j]) == basename_spec(sibs[i]) + seq!['.'] + spec_dec(
                i as nat,
            ));
            assert(false);
        }
    } else {
        assert(nj == bj + seq!['.'] + spec_dec(j as nat));
        assert(ni == bi);
        if ni == nj {
            assert(basename_spec(sibs[i]) == basename_spec(sibs[j]) + seq!['.'] + spec_dec(
                j as nat,
            ));
            assert(false);
        }
    }
}

/// One row of a mirror directory listing: the display name, the path it
/// stands for (a directory row's extended prefix, a terminal row's full
/// original path), and the row's kind.
pub type MirrorRow = (String, String, FileKind);

/// The rows of a listing, as character sequences.
pub open spec fn mirror_rows_view(t: Seq<MirrorRow>) -> Seq<(Seq<char>, Seq<char>, FileKind)> {
    t.map_values(|r: MirrorRow| (r.0@, r.1@, r.2))
}

/// Position of the first `/` in `s`, or -1 when there is none.
pub open spec fn first_slash(s: Seq<char>) -> int
    decreases s.len(),
{
    if s.len() == 0 {
        -1
    } else if s[0] == '/' {
        0
    } else if first_slash(s.drop_first()) == -1 {
        -1
    } else {
        first_slash(s.drop_first()) + 1
    }
}

proof fn lemma_first_slash_at(s: Seq<char>, j: int)
    requires
        0 <= j < s.len(),
        s[j] == '/',
        forall|k: int| 0 <= k < j ==> s[k] != '/',
    ensures
        first_slash(s) == j,
    decreases j,
{
    if j > 0 {
        assert(s.drop_first()[j - 1] == s[j]);
        assert forall|k: int| 0 <= k < j - 1 implies s.drop_first()[k] != '/' by {
            assert(s.drop_first()[k] == s[k + 1]);
        }
        lemma_first_slash_at(s.drop_first(), j - 1);
    }
}

proof fn lemma_first_slash_none(s: Seq<char>)
    requires
        forall|k: int| 0 <= k < s.len() ==> s[k] != '/',
    ensures
        first_slash(s) == -1,
    decreases s.len(),
{
    if s.len() > 0 {
        assert forall|k: int| 0 <= k < s.drop_first().len() implies s.drop_first()[k] != '/' by {
            assert(s.drop_first()[k] == s[k + 1]);
        }
        lemma_first_slash_none(s.drop_first());
    }
}

/// The row one stored path contributes to a listing under `prefix`:
/// nothing when the path does not extend the prefix (the inconsistency
/// the spec reserves for programming errors); a directory row naming the
/// next component when more path follows it; a terminal row named
/// `<rest>.tags` otherwise.
pub open spec fn mirror_row_spec(prefix: Seq<char>, child: Seq<char>) -> Option<
    (Seq<char>, Seq<char>, FileKind),
> {
    if !(prefix.len() <= child.len() && child.take(prefix.len() as int) == prefix) {
        None
    } else {
        let rest = child.skip(prefix.len() as int);
        let sp = first_slash(rest);
        if sp >= 0 {
            Some(
                (
                    rest.take(sp),
                    child.take(prefix.len() + sp + 1),
                    FileKind::Directory,
                ),
            )
        } else {
            Some((rest + ".tags"@, child, FileKind::RegularFile))
        }
    }
}

/// Sorted insert of a row by display name in code-point order; a row
/// already carrying the name is replaced in place.
pub open spec fn mirror_insert(
    t: Seq<(Seq<char>, Seq<char>, FileKind)>,
    row: (Seq<char>, Seq<char>, FileKind),
) -> Seq<(Seq<char>, Seq<char>, FileKind)>
    decreases t.len(),
{
    if t.len() == 0 {
        seq![row]
    } else if t[0].0 == row.0 {
        seq![row] + t.drop_first()
    } else if crate::text::lex_le(row.0, t[0].0) {
        seq![row] + t
    } else {
        seq![t[0]] + mirror_insert(t.drop_first(), row)
    }
}

proof fn lemma_mirror_insert_at(
    t: Seq<(Seq<char>, Seq<char>, FileKind)>,
    row: (Seq<char>, Seq<char>, FileKind),
    q: int,
)
    requires
        0 <= q <= t.len(),
        forall|k: int|
            0 <= k < q ==> (#[trigger] t[k]).0 != row.0 && !crate::text::lex_le(row.0, t[k].0),
    ensures
        q == t.len() ==> mirror_insert(t, row) == t.push(row),
        q < t.len() && t[q].0 == row.0 ==> mirror_insert(t, row) == t.update(q, row),
        q < t.len() && t[q].0 != row.0 && crate::text::lex_le(row.0, t[q].0) ==> mirror_insert(
            t,
            row,
        ) == t.insert(q, row),
    decreases q,
{
    if q == 0 {
        if t.len() == 0 {
            assert(seq![row] =~= t.push(row));
        } else if t[0].0 == row.0 {
            assert(seq![row] + t.drop_first() =~= t.update(0, row));
        } else if crate::text::lex_le(row.0, t[0].0) {
            assert(seq![row] + t =~= t.insert(0, row));
        }
    } else {
        assert(t[0].0 != row.0 && !crate::text::lex_le(row.0, t[0].0));
        let d = t.drop_first();
        assert forall|k: int|
            0 <= k < q - 1 implies (#[trigger] d[k]).0 != row.0 && !crate::text::lex_le(
            row.0,
            d[k].0,
        ) by {
            assert(d[k] == t[k + 1]);
        }
        lemma_mirror_insert_at(d, row, q - 1);
        if q == t.len() {
            assert(seq![t[0]] + d.push(row) =~= t.push(row));
        } else {
            assert(d[q - 1] == t[q]);
            if t[q].0 == row.0 {
                assert(seq![t[0]] + d.update(q - 1, row) =~= t.update(q, row));
            } else if crate::text::lex_le(row.0, t[q].0) {
                assert(seq![t[0]] + d.insert(q - 1, row) =~= t.insert(q, row));
            }
        }
    }
}

/// The listing table of a mirror directory: every stored path under the
/// prefix contributes its row, a later path with the same display name
/// replacing the earlier row, the whole kept sorted by name so offset
/// paging is stable; nothing when some path does not extend the prefix.
pub open spec fn mirror_fold(
    prefix: Seq<char>,
    children: Seq<Seq<char>>,
    acc: Seq<(Seq<char>, Seq<char>, FileKind)>,
) -> Option<Seq<(Seq<char>, Seq<char>, FileKind)>>
    decreases children.len(),
{
    if children.len() == 0 {
        Some(acc)
    } else {
        match mirror_row_spec(prefix, children[0]) {
            Some(row) => mirror_fold(prefix, children.drop_first(), mirror_insert(acc, row)),
            None => None,
        }
    }
}

/// See [`mirror_fold`]: the table built from an empty accumulator.
pub open spec fn mirror_table_spec(prefix: Seq<char>, children: Seq<Seq<char>>) -> Option<
    Seq<(Seq<char>, Seq<char>, FileKind)>,
> {
    mirror_fold(prefix, children, Seq::empty())
}

/// Builds the mirror listing table for the stored paths under a prefix.
#[verifier::rlimit(100)]
pub fn mirror_listing_table(prefix: &str, children: &Vec<String>) -> (r: Result<
    Vec<MirrorRow>,
    FatalError,
>)
    ensures
        ({
            let t = mirror_table_spec(prefix@, children@.map_values(|c: String| c@));
            match r {
                Ok(rows) => t == Some(mirror_rows_view(rows@)),
                Err(_) => t is None,
            }
        }),
{
    let ghost pv = prefix@;
    let ghost cv = children@.map_values(|c: String| c@);
    let mut table: Vec<MirrorRow> = Vec::new();
    let mut ci: usize = 0;
    proof {
        assert(cv.skip(0) =~= cv);
        assert(mirror_rows_view(table@) =~= Seq::<(Seq<char>, Seq<char>, FileKind)>::empty());
    }
    while ci < children.len()
        invariant
            pv == prefix@,
            cv == children@.map_values(|c: String| c@),
            ci <= cv.len(),
            mirror_table_spec(pv, cv) == mirror_fold(
                pv,
                cv.skip(ci as int),
                mirror_rows_view(table@),
            ),
        decreases cv.len() - ci,
    {
        let child = &children[ci];
        proof {
            assert(cv[ci as int] == children@[ci as int]@);
            assert(cv.skip(ci as int)[0] == cv[ci as int]);
            assert(cv.skip(ci as int).drop_first() =~= cv.skip(ci + 1));
        }
        let rest = match crate::text::try_strip_prefix(child.as_str(), prefix) {
            Some(rest) => rest,
            None => {
                proof {
                    assert(mirror_row_spec(pv, cv[ci as int]) is None);
                }
                return Err(fatal("stored path does not extend its directory prefix"));
            },
        };
        let mut split: usize = 0;
        let mut found_slash = false;
        while split < rest.len()
            invariant_except_break
                !found_slash,
            invariant
                rest@ == child@.skip(pv.len() as int),
                split <= rest@.len(),
                forall|k: int| 0 <= k < split ==> rest@[k] != '/',
            ensures
                found_slash ==> split < rest@.len() && rest@[split as int] == '/',
                !found_slash ==> split == rest@.len(),
                forall|k: int| 0 <= k < split ==> rest@[k] != '/',
            decreases rest@.len() - split,
        {
            if rest[split] == '/' {
                found_slash = true;
                break ;
            }
            split += 1;
        }
        let row: MirrorRow;
        let ghost row_v: (Seq<char>, Seq<char>, FileKind);
        if found_slash {
            proof {
                lemma_first_slash_at(rest@, split as int);
            }
            let mut name_chars: Vec<char> = Vec::new();
            let mut k: usize = 0;
            proof {
                assert(name_chars@ =~= rest@.take(0));
            }
            while k < split
                invariant
                    rest@ == child@.skip(pv.len() as int),
                    split < rest@.len(),
                    rest@.len() == rest.len(),
                    k <= split,
                    name_chars@ == rest@.take(k as int),
                decreases split - k,
            {
                name_chars.push(rest[k]);
                k += 1;
                proof {
                    assert(rest@.take(k as int) =~= rest@.take(k - 1).push(rest@[k - 1]));
                }
            }
            let name = chars_to_string(&name_chars);
            let mut dir_prefix = prefix.to_owned();
            dir_prefix.append(name.as_str());
            dir_prefix.append("/");
            proof {
                reveal_strlit("/");
                row_v = (
                    rest@.take(split as int),
                    child@.take(pv.len() + split + 1),
                    FileKind::Directory,
                );
                assert(child@.take(pv.len() as int) == pv);
                assert(rest@[split as int] == '/');
                assert(dir_prefix@ =~= pv + rest@.take(split as int) + seq!['/']);
                assert(child@.take(pv.len() + split + 1) =~= pv + rest@.take(split as int)
                    + seq!['/']);
                assert(mirror_row_spec(pv, cv[ci as int]) == Some(row_v));
            }
            row = (name, dir_prefix, FileKind::Directory);
        } else {
            let mut name = chars_to_string(&rest);
            name.append(".tags");
            proof {
                lemma_first_slash_none(rest@);
                row_v = (rest@ + ".tags"@, child@, FileKind::RegularFile);
                assert(mirror_row_spec(pv, cv[ci as int]) == Some(row_v));
            }
            row = (name, child.clone(), FileKind::RegularFile);
        }
        proof {
            assert((row.0@, row.1@, row.2) == row_v);
        }
        // Sorted insert, replacing an equal name.
        let ghost t0 = mirror_rows_view(table@);
        let mut q: usize = 0;
        let mut eq_found = false;
        while q < table.len()
            invariant_except_break
                !eq_found,
            invariant
                t0 == mirror_rows_view(table@),
                q <= table@.len(),
                forall|k: int|
                    0 <= k < q ==> (#[trigger] t0[k]).0 != row.0@ && !crate::text::lex_le(
                        row.0@,
                        t0[k].0,
                    ),
            ensures
                t0 == mirror_rows_view(table@),
                q <= table@.len(),
                forall|k: int|
                    0 <= k < q ==> (#[trigger] t0[k]).0 != row.0@ && !crate::text::lex_le(
                        row.0@,
                        t0[k].0,
                    ),
                eq_found ==> q < table@.len() && t0[q as int].0 == row.0@,
                !eq_found && q < table@.len() ==> t0[q as int].0 != row.0@
                    && crate::text::lex_le(row.0@, t0[q as int].0),
            decreases table@.len() - q,
        {
            proof {
                assert(t0[q as int] == (table@[q as int].0@, table@[q as int].1@, table@[
                    q as int].2));
            }
            if str_eq(table[q].0.as_str(), row.0.as_str()) {
                eq_found = true;
                break ;
            }
            if crate::text::str_le(row.0.as_str(), table[q].0.as_str()) {
                break ;
            }
            q += 1;
        }
        let ghost pre_table = table@;
        proof {
            lemma_mirror_insert_at(t0, row_v, q as int);
        }
        if eq_found {
            table.remove(q);
            table.insert(q, row);
            proof {
                assert(table@ =~= pre_table.update(q as int, (table@[q as int])));
                assert(mirror_rows_view(table@) =~= t0.update(q as int, row_v));
            }
        } else {
            table.insert(q, row);
            proof {
                if q == pre_table.len() {
                    assert(pre_table.insert(q as int, table@[q as int]) =~= pre_table.push(
                        table@[q as int],
                    ));
                    assert(mirror_rows_view(table@) =~= t0.push(row_v));
                } else {
                    assert(mirror_rows_view(table@) =~= t0.insert(q as int, row_v));
                }
            }
        }
        ci += 1;
        proof {
            assert(mirror_rows_view(table@) == mirror_insert(t0, row_v));
            assert(mirror_fold(pv, cv.skip(ci - 1), t0) == mirror_fold(
                pv,
                cv.skip(ci as int),
                mirror_insert(t0, row_v),
            ));
        }
    }
    proof {
        assert(cv.skip(cv.len() as int) =~= Seq::<Seq<char>>::empty());
    }
    Ok(table)
}

/// A broken internal invariant: the mount cannot answer and the driver
/// should abort, as the spec demands for programming errors.
#[derive(Debug)]
pub struct FatalError {
    pub detail: String,
}

fn fatal(detail: &str) -> (r: FatalError) {
    FatalError { detail: String::from_str(detail) }
}

/// One row of a directory listing: the child's inode, the offset the
/// kernel hands back to resume after this row, the child's kind and its
/// display name.
pub struct DirEntry {
    pub ino: u64,
    pub offset: i64,
    pub kind: FileKind,
    pub name: String,
}

/// The contents of a mirror file: each mapping as `tag` or `tag=value`,
/// one per line, in the order given.
pub open spec fn tags_file_spec(ms: Seq<TagMapping>) -> Seq<char>
    decreases ms.len(),
{
    if ms.len() == 0 {
        Seq::<char>::empty()
    } else {
        simple_fmt(ms[0].tag_spec(), ms[0].value_spec()) + seq!['\n'] + tags_file_spec(
            ms.drop_first(),
        )
    }
}

proof fn lemma_tags_file_push(p: Seq<TagMapping>, m: TagMapping)
    ensures
        tags_file_spec(p.push(m)) == tags_file_spec(p) + simple_fmt(m.tag_spec(), m.value_spec())
            + seq!['\n'],
    decreases p.len(),
{
    if p.len() == 0 {
        assert(p.push(m).drop_first() =~= p);
        assert(p.push(m)[0] == m);
        assert(simple_fmt(m.tag_spec(), m.value_spec()) + seq!['\n'] + Seq::<char>::empty() =~=
        simple_fmt(m.tag_spec(), m.value_spec()) + seq!['\n']);
        assert(Seq::<char>::empty() + (simple_fmt(m.tag_spec(), m.value_spec()) + seq!['\n'])
            =~= simple_fmt(m.tag_spec(), m.value_spec()) + seq!['\n']);
        assert(tags_file_spec(p) + simple_fmt(m.tag_spec(), m.value_spec()) + seq!['\n'] =~=
        simple_fmt(m.tag_spec(), m.value_spec()) + seq!['\n']);
    } else {
        assert(p.push(m).drop_first() =~= p.drop_first().push(m));
        assert(p.push(m)[0] == p[0]);
        lemma_tags_file_push(p.drop_first(), m);
        let head = simple_fmt(p[0].tag_spec(), p[0].value_spec()) + seq!['\n'];
        assert(head + (tags_file_spec(p.drop_first()) + simple_fmt(m.tag_spec(), m.value_spec())
            + seq!['\n']) =~= (head + tags_file_spec(p.drop_first())) + simple_fmt(
            m.tag_spec(),
            m.value_spec(),
        ) + seq!['\n']);
        assert(head + (tags_file_spec(p.drop_first()) + simple_fmt(m.tag_spec(), m.value_spec()))
            + seq!['\n'] =~= (head + tags_file_spec(p.drop_first())) + simple_fmt(
            m.tag_spec(),
            m.value_spec(),
        ) + seq!['\n']);
    }
}

/// Renders the contents of a mirror file for the given mappings.
pub fn tags_file_content(tags: &Vec<TagMapping>) -> (r: String)
    ensures
        r@ == tags_file_spec(tags@),
{
    let mut content = String::new();
    let n = tags.len();
    let mut i: usize = 0;
    proof {
        assert(tags@.take(0) =~= Seq::<TagMapping>::empty());
    }
    while i < n
        invariant
            n == tags@.len(),
            i <= n,
            content@ == tags_file_spec(tags@.take(i as int)),
        decreases n - i,
    {
        let line = SimpleTagFormatter(&tags[i]).render();
        content.append(line.as_str());
        content.append("\n");
        i += 1;
        proof {
            reveal_strlit("\n");
            assert(tags@.take(i as int) =~= tags@.take(i - 1).push(tags@[i - 1]));
            lemma_tags_file_push(tags@.take(i - 1), tags@[i - 1]);
            assert(content@ =~= (tags_file_spec(tags@.take(i - 1)) + simple_fmt(
                tags@[i - 1].tag_spec(),
                tags@[i - 1].value_spec(),
            )) + "\n"@);
            assert("\n"@ =~= seq!['\n']);
            assert((tags_file_spec(tags@.take(i - 1)) + simple_fmt(
                tags@[i - 1].tag_spec(),
                tags@[i - 1].value_spec(),
            )) + seq!['\n'] =~= tags_file_spec(tags@.take(i - 1)) + simple_fmt(
                tags@[i - 1].tag_spec(),
                tags@[i - 1].value_spec(),
            ) + seq!['\n']);
        }
    }
    proof {
        assert(tags@.take(n as int) =~= tags@);
    }
    content
}

/// Filesystem frontend: one entry graph and one tag-store handle.  The
/// callback methods answer with plain values; the driver that sits between
/// them and the kernel performs the replies.
///
/// The readdir methods materialise the children they list, and `lookup`
/// runs the listing machinery for its side effects before answering, so a
/// kernel that stats a path without ever reading its parent directory
/// still sees coherent structure.
pub struct TagFS {
    entries: Entries,
    db: Database,
}

impl TagFS {
    /// The frontend's invariant: the entry graph is well-formed.
    pub closed spec fn wf(&self) -> bool {
        self.entries.wf()
    }

    /// Whether an inode is live in the entry graph.
    pub closed spec fn inode_live(&self, ino: u64) -> bool {
        self.entries.live(ino)
    }

    /// The entry of a live inode.
    pub closed spec fn entry_spec(&self, ino: u64) -> Entry {
        self.entries.entry_of(ino)
    }

    /// How many inodes are live.
    pub closed spec fn inode_count(&self) -> nat {
        self.entries.count()
    }

    /// Whether `name` resolves to a child under `parent`.
    pub closed spec fn resolves(&self, parent: u64, name: Seq<char>) -> bool {
        self.entries.has_child(parent, name)
    }

    /// The child that `(parent, name)` resolves to.
    pub closed spec fn resolved_child(&self, parent: u64, name: Seq<char>) -> u64
        recommends
            self.resolves(parent, name),
    {
        self.entries.child_of(parent, name)
    }

    /// A fresh frontend over a store handle, with the root entry stamped
    /// at the given mount time.
    pub fn new(db: Database, mount_time: u64) -> (r: TagFS)
        ensures
            r.wf(),
            r.inode_count() == 1,
    {
        TagFS { entries: Entries::new(mount_time), db }
    }

    /// Whether the entry graph still has room for a couple of fresh
    /// inodes.
    fn has_room(&self) -> (r: bool)
        ensures
            r == (self.inode_count() + 2 <= u64::MAX),
    {
        self.entries.entry_count() <= u64::MAX - 2
    }

    /// Whether the kernel-supplied inode is live.
    pub fn has_inode(&self, ino: u64) -> (r: bool)
        ensures
            r == self.inode_live(ino),
    {
        ino >= 1 && ino <= self.entries.entry_count()
    }

    /// Look up an inode's attributes; `None` for a dead inode (which the
    /// driver treats as the programming error it is).
    pub fn getattr(&self, ino: u64) -> (r: Option<Attr>)
        ensures
            match r {
                Some(a) => self.inode_live(ino) && a == entry_attr(self.entry_spec(ino)),
                None => !self.inode_live(ino),
            },
    {
        if self.has_inode(ino) {
            Some(self.entries.get_attr(ino))
        } else {
            None
        }
    }

    /// Open a synthetic file.  Only mirror terminals can be opened; the
    /// returned handle is always 0 because reads are recomputed.
    pub fn open(&self, ino: u64) -> (r: Result<u64, FatalError>)
        ensures
            r matches Ok(h) ==> h == 0 && self.inode_live(ino) && self.entry_spec(
                ino,
            ) is AllTagsTerminal,
            r is Err ==> !self.inode_live(ino) || !(self.entry_spec(ino) is AllTagsTerminal),
    {
        if self.has_inode(ino) && matches!(self.entries.get_type(ino), EntryType::AllTagsTerminal) {
            Ok(0)
        } else {
            Err(fatal("tried to open a file that is not a file"))
        }
    }

    /// Return the target of a link inode: the path its mapping currently
    /// names in the store, so a prefix rename is reflected immediately.
    /// Failure (a dead inode, a non-link, or a mapping the store no longer
    /// has) is fatal to the mount.
    pub fn readlink(&mut self, ino: u64) -> (r: Result<String, FatalError>)
        ensures
            final(self).wf() == old(self).wf(),
            final(self).inode_count() == old(self).inode_count(),
            forall|i: u64|
                old(self).inode_live(i) ==> final(self).entry_spec(i) == old(self).entry_spec(i),
            r is Ok ==> old(self).inode_live(ino) && old(self).entry_spec(ino) is Link,
            !(old(self).inode_live(ino) && old(self).entry_spec(ino) is Link) ==> r is Err,
    {
        if !self.has_inode(ino) || !matches!(self.entries.get_type(ino), EntryType::Link) {
            return Err(fatal("could not find link target for inode"));
        }
        let target = match self.entries.get_link_target(ino) {
            Some(t) => t,
            None => {
                proof {
                    assert(false);
                }
                0
            },
        };
        match self.db.get_path_from_id(target) {
            Ok(path) => Ok(path),
            Err(_) => Err(fatal("could not find link target for inode")),
        }
    }

    /// The full contents of a mirror terminal: the tags of the stored
    /// original path, one per line, in insertion order.  The driver slices
    /// the bytes according to the kernel's offset and size.
    pub fn read(&mut self, ino: u64) -> (r: Result<String, FatalError>)
        ensures
            final(self).wf() == old(self).wf(),
            final(self).inode_count() == old(self).inode_count(),
            forall|i: u64|
                old(self).inode_live(i) ==> final(self).entry_spec(i) == old(self).entry_spec(i),
            r is Err <==> !(old(self).inode_live(ino) && old(self).entry_spec(
                ino,
            ) is AllTagsTerminal),
    {
        if !self.has_inode(ino) || !matches!(
            self.entries.get_type(ino),
            EntryType::AllTagsTerminal,
        ) {
            return Err(fatal("tried to read a file that is not a file"));
        }
        let path = self.entries.get_path(ino).to_owned();
        let tags = match self.db.tags(path.as_str()) {
            Ok(tags) => tags,
            Err(_) => Vec::new(),
        };
        Ok(tags_file_content(&tags))
    }
}


impl TagFS {
    /// The character-sequence views of the paths in a listing.
    pub open spec fn path_views(children: Seq<(String, u64)>) -> Seq<Seq<char>> {
        children.map_values(|c: (String, u64)| c.0@)
    }

    /// Assembles (and materialises) one link row per listed `(path,
    /// mapping id)` pair, from position `offset` on: the display name is
    /// the path's basename disambiguated against the whole list, the
    /// link's target is the pair's mapping id, and the resume cookie is
    /// the pair's position in the list plus one.  While the inode table
    /// and the cookies have room, the rows are exactly the rest of the
    /// list.
    fn link_rows(&mut self, children: &Vec<(String, u64)>, inode: u64, offset: usize) -> (r: Vec<
        DirEntry,
    >)
        requires
            old(self).wf(),
            old(self).inode_live(inode),
            forall|k: int| 0 <= k < children@.len() ==> has_basename((#[trigger] children@[k]).0@),
        ensures
            final(self).wf(),
            old(self).inode_count() <= final(self).inode_count(),
            forall|i: u64|
                old(self).inode_live(i) ==> final(self).entry_spec(i) == old(self).entry_spec(i),
            forall|p: u64, n: Seq<char>|
                old(self).resolves(p, n) ==> #[trigger] final(self).resolves(p, n),
            forall|p: u64, n: Seq<char>|
                #[trigger] old(self).resolves(p, n) && p != inode ==> final(self).resolved_child(
                    p,
                    n,
                ) == old(self).resolved_child(p, n),
            forall|k: int|
                0 <= k < r@.len() ==> offset + k < children@.len() && final(self).inode_live(
                    (#[trigger] r@[k]).ino,
                ) && r@[k].kind == FileKind::Symlink && (final(self).entry_spec(
                    r@[k].ino,
                ) matches Entry::Link { target, .. } && target == children@[offset + k].1)
                    && r@[k].offset == offset + k + 1 && r@[k].name@ == sanitise_path_spec(
                    children@[offset + k].0@,
                    offset + k,
                    Self::path_views(children@),
                ),
            (old(self).inode_count() + children@.len() + 2 <= u64::MAX && children@.len()
                <= i64::MAX) ==> r@.len() == (if offset <= children@.len() {
                children@.len() - offset
            } else {
                0
            }),
    {
        let ghost sibs = Self::path_views(children@);
        let mut names: Vec<String> = Vec::new();
        let mut ci: usize = 0;
        while ci < children.len()
            invariant
                self.entries == old(self).entries,
                self.wf(),
                ci <= children@.len(),
                names@.len() == ci,
                forall|k: int| 0 <= k < ci ==> (#[trigger] names@[k])@ == children@[k].0@,
            decreases children@.len() - ci,
        {
            let p = &children[ci];
            names.push(p.0.clone());
            ci += 1;
        }
        proof {
            assert(names@.map_values(|s: String| s@) =~= sibs);
            assert forall|k: int| 0 <= k < names@.len() implies has_basename(
                (#[trigger] names@[k])@,
            ) by {
                assert(names@[k]@ == children@[k].0@);
            }
        }
        let mut out: Vec<DirEntry> = Vec::new();
        let mut idx = offset;
        if idx >= children.len() {
            return out;
        }
        while idx < children.len()
            invariant
                self.wf(),
                old(self).inode_count() <= self.inode_count(),
                forall|i: u64|
                    old(self).inode_live(i) ==> self.entry_spec(i) == old(self).entry_spec(i),
                forall|p: u64, n: Seq<char>|
                    old(self).resolves(p, n) ==> #[trigger] self.resolves(p, n),
                forall|p: u64, n: Seq<char>|
                    #[trigger] old(self).resolves(p, n) && p != inode ==> self.resolved_child(
                        p,
                        n,
                    ) == old(self).resolved_child(p, n),
                self.inode_live(inode),
                names@.len() == children@.len(),
                forall|k: int| 0 <= k < names@.len() ==> (#[trigger] names@[k])@
                    == children@[k].0@,
                forall|k: int| 0 <= k < names@.len() ==> has_basename((#[trigger] names@[k])@),
                forall|k: int| 0 <= k < children@.len() ==> has_basename(
                    (#[trigger] children@[k]).0@,
                ),
                sibs == Self::path_views(children@),
                names@.map_values(|s: String| s@) == sibs,
                offset <= idx <= children@.len(),
                out@.len() == idx - offset,
                forall|k: int|
                    0 <= k < out@.len() ==> offset + k < children@.len() && self.inode_live(
                        (#[trigger] out@[k]).ino,
                    ) && out@[k].kind == FileKind::Symlink && (self.entry_spec(
                        out@[k].ino,
                    ) matches Entry::Link { target, .. } && target == children@[offset + k].1)
                        && out@[k].offset == offset + k + 1 && out@[k].name@
                        == sanitise_path_spec(children@[offset + k].0@, offset + k, sibs),
                self.inode_count() <= old(self).inode_count() + (idx - offset),
            decreases children@.len() - idx,
        {
            let ghost pre = *self;
            if (idx as u64) >= (i64::MAX as u64) {
                proof {
                    if children@.len() <= i64::MAX {
                        assert(false);
                    }
                }
                return out;
            }
            let cookie = ((idx as u64) + 1) as i64;
            let child = children[idx].0.clone();
            let child_id = children[idx].1;
            proof {
                assert(names@[idx as int]@ == children@[idx as int].0@);
            }
            let display_name = sanitise_path(child.as_str(), idx, &names);
            let child_inode = match self.entries.try_get_link_inode(
                inode,
                display_name.as_str(),
                child_id,
            ) {
                Some(i) => i,
                None => {
                    if !self.has_room() {
                        proof {
                            if old(self).inode_count() + children@.len() + 2 <= u64::MAX {
                                assert(self.inode_count() + 2 <= u64::MAX);
                                assert(false);
                            }
                        }
                        return out;
                    }
                    self.entries.create_link(
                        inode,
                        display_name.as_str(),
                        child_id,
                        byte_len(child.as_str()) as u64,
                    )
                },
            };
            out.push(
                DirEntry {
                    ino: child_inode,
                    offset: cookie,
                    kind: FileKind::Symlink,
                    name: display_name,
                },
            );
            idx += 1;
            proof {
                assert forall|i: u64|
                    old(self).inode_live(i) implies self.entry_spec(i) == old(self).entry_spec(
                    i,
                ) by {
                    assert(pre.inode_live(i));
                }
                assert forall|p: u64, n: Seq<char>|
                    old(self).resolves(p, n) implies #[trigger] self.resolves(p, n) by {
                    assert(pre.resolves(p, n));
                }
                assert forall|p: u64, n: Seq<char>|
                    #[trigger] old(self).resolves(p, n) && p != inode implies self.resolved_child(
                        p,
                        n,
                    ) == old(self).resolved_child(p, n) by {
                    assert(pre.resolves(p, n));
                }
                assert forall|k: int|
                    0 <= k < out@.len() implies offset + k < children@.len() && self.inode_live(
                        (#[trigger] out@[k]).ino,
                    ) && out@[k].kind == FileKind::Symlink && (self.entry_spec(
                        out@[k].ino,
                    ) matches Entry::Link { target, .. } && target == children@[offset + k].1)
                        && out@[k].offset == offset + k + 1 && out@[k].name@
                        == sanitise_path_spec(children@[offset + k].0@, offset + k, sibs) by {
                    if k < out@.len() - 1 {
                        assert(pre.inode_live(out@[k].ino));
                        assert(pre.entry_spec(out@[k].ino) is Link);
                    }
                }
            }
        }
        out
    }

    /// Helper function to list (and materialise) the entries for a
    /// particular tag value pair: one link per matching path, basenames
    /// disambiguated against the sibling list.
    fn readdir_files(&mut self, tag: &str, value: Option<&str>, inode: u64, offset: usize) -> (r:
        Result<Vec<DirEntry>, FatalError>)
        requires
            old(self).wf(),
            old(self).inode_live(inode),
        ensures
            final(self).wf(),
            old(self).inode_count() <= final(self).inode_count(),
            forall|i: u64|
                old(self).inode_live(i) ==> final(self).entry_spec(i) == old(self).entry_spec(i),
            r matches Ok(v) ==> forall|k: int|
                0 <= k < v@.len() ==> final(self).inode_live((#[trigger] v@[k]).ino) && (
                #[trigger] v@[k]).kind == FileKind::Symlink && final(self).entry_spec(
                    v@[k].ino,
                ) is Link,
            forall|p: u64, n: Seq<char>|
                old(self).resolves(p, n) ==> #[trigger] final(self).resolves(p, n),
            r matches Ok(v) ==> forall|k: int|
                0 <= k < v@.len() ==> (#[trigger] v@[k]).offset == offset + k + 1,
            forall|p: u64, n: Seq<char>|
                #[trigger] old(self).resolves(p, n) && p != inode ==> final(self).resolved_child(
                    p,
                    n,
                ) == old(self).resolved_child(p, n),
    {
        let children = match self.db.paths_with_tag(tag, value) {
            Ok(c) => c,
            Err(_) => {
                return Ok(Vec::new());
            },
        };
        let mut vi: usize = 0;
        while vi < children.len()
            invariant
                self.entries == old(self).entries,
                self.wf(),
                vi <= children@.len(),
                forall|k: int| 0 <= k < vi ==> has_basename((#[trigger] children@[k]).0@),
            decreases children@.len() - vi,
        {
            if try_basename(children[vi].0.as_str()).is_none() {
                return Err(fatal("invalid path without final component"));
            }
            vi += 1;
        }
        let ghost mid = *self;
        let rows = self.link_rows(&children, inode, offset);
        proof {
            assert(mid.entries == old(self).entries);
            assert forall|p: u64, n: Seq<char>|
                old(self).resolves(p, n) implies #[trigger] self.resolves(p, n) by {
                assert(mid.resolves(p, n));
            }
            assert forall|p: u64, n: Seq<char>|
                #[trigger] old(self).resolves(p, n) && p != inode implies self.resolved_child(
                    p,
                    n,
                ) == old(self).resolved_child(p, n) by {
                assert(mid.resolves(p, n));
                assert(mid.resolved_child(p, n) == old(self).resolved_child(p, n));
            }
        }
        Ok(rows)
    }

    /// Assembles (and materialises) one value directory row per listed
    /// value, from position `offset` on: the display name is the
    /// path-safe form of the value, and the resume cookie the value's
    /// position in the list plus one.  While the inode table and the
    /// cookies have room, the rows are exactly the rest of the list.
    fn value_rows(&mut self, values: &Vec<String>, inode: u64, offset: usize) -> (r: Vec<
        DirEntry,
    >)
        requires
            old(self).wf(),
            old(self).inode_live(inode),
        ensures
            final(self).wf(),
            old(self).inode_count() <= final(self).inode_count(),
            forall|i: u64|
                old(self).inode_live(i) ==> final(self).entry_spec(i) == old(self).entry_spec(i),
            forall|p: u64, n: Seq<char>|
                old(self).resolves(p, n) ==> #[trigger] final(self).resolves(p, n),
            forall|p: u64, n: Seq<char>|
                #[trigger] old(self).resolves(p, n) ==> final(self).resolved_child(p, n) == old(
                    self,
                ).resolved_child(p, n),
            forall|k: int|
                0 <= k < r@.len() ==> offset + k < values@.len() && final(self).inode_live(
                    (#[trigger] r@[k]).ino,
                ) && r@[k].kind == FileKind::Directory && r@[k].offset == offset + k + 1
                    && r@[k].name@ == sanitise_value_spec(values@[offset + k]@),
            (old(self).inode_count() + values@.len() + 2 <= u64::MAX && values@.len()
                <= i64::MAX) ==> r@.len() == (if offset <= values@.len() {
                values@.len() - offset
            } else {
                0
            }),
    {
        let mut out: Vec<DirEntry> = Vec::new();
        let mut idx = offset;
        if idx >= values.len() {
            return out;
        }
        while idx < values.len()
            invariant
                self.wf(),
                old(self).inode_count() <= self.inode_count(),
                forall|i: u64|
                    old(self).inode_live(i) ==> self.entry_spec(i) == old(self).entry_spec(i),
                forall|p: u64, n: Seq<char>|
                    old(self).resolves(p, n) ==> #[trigger] self.resolves(p, n),
                forall|p: u64, n: Seq<char>|
                    #[trigger] old(self).resolves(p, n) ==> self.resolved_child(p, n) == old(
                        self,
                    ).resolved_child(p, n),
                self.inode_live(inode),
                offset <= idx <= values@.len(),
                out@.len() == idx - offset,
                forall|k: int|
                    0 <= k < out@.len() ==> offset + k < values@.len() && self.inode_live(
                        (#[trigger] out@[k]).ino,
                    ) && out@[k].kind == FileKind::Directory && out@[k].offset == offset + k + 1
                        && out@[k].name@ == sanitise_value_spec(values@[offset + k]@),
                self.inode_count() <= old(self).inode_count() + (idx - offset),
            decreases values@.len() - idx,
        {
            let ghost pre = *self;
            if (idx as u64) >= (i64::MAX as u64) {
                proof {
                    if values@.len() <= i64::MAX {
                        assert(false);
                    }
                }
                return out;
            }
            let cookie = ((idx as u64) + 1) as i64;
            if !self.has_room() {
                proof {
                    if old(self).inode_count() + values@.len() + 2 <= u64::MAX {
                        assert(self.inode_count() + 2 <= u64::MAX);
                        assert(false);
                    }
                }
                return out;
            }
            let child = &values[idx];
            let display_name = sanitise_value(child.as_str());
            let child_inode = self.entries.get_or_create_value_directory(
                inode,
                display_name.as_str(),
                child.as_str(),
            );
            out.push(
                DirEntry {
                    ino: child_inode,
                    offset: cookie,
                    kind: FileKind::Directory,
                    name: display_name,
                },
            );
            idx += 1;
            proof {
                assert forall|i: u64|
                    old(self).inode_live(i) implies self.entry_spec(i) == old(self).entry_spec(
                    i,
                ) by {
                    assert(pre.inode_live(i));
                }
                assert forall|p: u64, n: Seq<char>|
                    old(self).resolves(p, n) implies #[trigger] self.resolves(p, n) by {
                    assert(pre.resolves(p, n));
                }
                assert forall|p: u64, n: Seq<char>|
                    #[trigger] old(self).resolves(p, n) implies self.resolved_child(p, n) == old(
                        self,
                    ).resolved_child(p, n) by {
                    assert(pre.resolves(p, n));
                }
                assert forall|k: int|
                    0 <= k < out@.len() implies offset + k < values@.len() && self.inode_live(
                        (#[trigger] out@[k]).ino,
                    ) && out@[k].kind == FileKind::Directory && out@[k].offset == offset + k + 1
                        && out@[k].name@ == sanitise_value_spec(values@[offset + k]@) by {
                    if k < out@.len() - 1 {
                        assert(pre.inode_live(out@[k].ino));
                    }
                }
            }
        }
        out
    }

    /// Helper function to list (and materialise) all the value
    /// directories of a particular tag.
    fn readdir_values(&mut self, tag: &str, inode: u64, offset: usize) -> (r: Result<
        Vec<DirEntry>,
        FatalError,
    >)
        requires
            old(self).wf(),
            old(self).inode_live(inode),
        ensures
            final(self).wf(),
            old(self).inode_count() <= final(self).inode_count(),
            forall|i: u64|
                old(self).inode_live(i) ==> final(self).entry_spec(i) == old(self).entry_spec(i),
            r matches Ok(v) ==> forall|k: int|
                0 <= k < v@.len() ==> final(self).inode_live((#[trigger] v@[k]).ino) && (
                #[trigger] v@[k]).kind == FileKind::Directory,
            forall|p: u64, n: Seq<char>|
                old(self).resolves(p, n) ==> #[trigger] final(self).resolves(p, n),
            r matches Ok(v) ==> forall|k: int|
                0 <= k < v@.len() ==> (#[trigger] v@[k]).offset == offset + k + 1,
            forall|p: u64, n: Seq<char>|
                #[trigger] old(self).resolves(p, n) ==> final(self).resolved_child(p, n) == old(
                    self,
                ).resolved_child(p, n),
    {
        let children = match self.db.values(tag) {
            Ok(c) => c,
            Err(_) => {
                return Ok(Vec::new());
            },
        };
        let ghost mid = *self;
        let rows = self.value_rows(&children, inode, offset);
        proof {
            assert(mid.entries == old(self).entries);
            assert forall|p: u64, n: Seq<char>|
                old(self).resolves(p, n) implies #[trigger] self.resolves(p, n) by {
                assert(mid.resolves(p, n));
            }
            assert forall|p: u64, n: Seq<char>|
                #[trigger] old(self).resolves(p, n) implies self.resolved_child(p, n) == old(
                    self,
                ).resolved_child(p, n) by {
                assert(mid.resolves(p, n));
                assert(mid.resolved_child(p, n) == old(self).resolved_child(p, n));
            }
        }
        Ok(rows)
    }

    /// Helper function to list (and materialise) the links for a
    /// particular query's results.
    fn readdir_query(&mut self, inode: u64, offset: usize) -> (r: Result<
        Vec<DirEntry>,
        FatalError,
    >)
        requires
            old(self).wf(),
            old(self).inode_live(inode),
            old(self).entry_spec(inode) is QueryResultDir,
        ensures
            final(self).wf(),
            old(self).inode_count() <= final(self).inode_count(),
            forall|i: u64|
                old(self).inode_live(i) ==> final(self).entry_spec(i) == old(self).entry_spec(i),
            r matches Ok(v) ==> forall|k: int|
                0 <= k < v@.len() ==> final(self).inode_live((#[trigger] v@[k]).ino) && (
                #[trigger] v@[k]).kind == FileKind::Symlink && final(self).entry_spec(
                    v@[k].ino,
                ) is Link,
            forall|p: u64, n: Seq<char>|
                old(self).resolves(p, n) ==> #[trigger] final(self).resolves(p, n),
            r matches Ok(v) ==> forall|k: int|
                0 <= k < v@.len() ==> (#[trigger] v@[k]).offset == offset + k + 1,
            forall|p: u64, n: Seq<char>|
                #[trigger] old(self).resolves(p, n) && p != inode ==> final(self).resolved_child(
                    p,
                    n,
                ) == old(self).resolved_child(p, n),
    {
        let query = self.entries.get_query(inode).to_owned();
        // The failure case should never happen, because lookup has already
        // rejected any invalid queries.
        let paths = match self.db.query(query.as_str(), false) {
            Ok(p) => p,
            Err(_) => {
                return Ok(Vec::new());
            },
        };
        let mut vi: usize = 0;
        while vi < paths.len()
            invariant
                self.entries == old(self).entries,
                self.wf(),
                self.inode_live(inode),
                vi <= paths@.len(),
                forall|k: int| 0 <= k < vi ==> has_basename((#[trigger] paths@[k]).0@),
            decreases paths@.len() - vi,
        {
            if try_basename(paths[vi].0.as_str()).is_none() {
                return Err(fatal("invalid path without final component"));
            }
            vi += 1;
        }
        let ghost mid = *self;
        let rows = self.link_rows(&paths, inode, offset);
        proof {
            assert(mid.entries == old(self).entries);
            assert forall|p: u64, n: Seq<char>|
                old(self).resolves(p, n) implies #[trigger] self.resolves(p, n) by {
                assert(mid.resolves(p, n));
            }
            assert forall|p: u64, n: Seq<char>|
                #[trigger] old(self).resolves(p, n) && p != inode implies self.resolved_child(
                    p,
                    n,
                ) == old(self).resolved_child(p, n) by {
                assert(mid.resolves(p, n));
                assert(mid.resolved_child(p, n) == old(self).resolved_child(p, n));
            }
        }
        Ok(rows)
    }

    /// The display name of a stored query row: `name @ [query]`, the
    /// query text path-safe.
    pub open spec fn stored_display(sq: StoredQuery) -> Seq<char> {
        sq.name@ + " @ ["@ + sanitised_query(sq.query@) + "]"@
    }

    /// Assembles (and materialises) one result directory row per stored
    /// query, from position `offset` on: the display name renders the
    /// stored query, and the resume cookie is its position in the list
    /// plus one.  While the inode table and the cookies have room, the
    /// rows are exactly the rest of the list.
    fn stored_rows(&mut self, stored: &Vec<StoredQuery>, offset: usize) -> (r: Vec<DirEntry>)
        requires
            old(self).wf(),
        ensures
            final(self).wf(),
            old(self).inode_count() <= final(self).inode_count(),
            forall|i: u64|
                old(self).inode_live(i) ==> final(self).entry_spec(i) == old(self).entry_spec(i),
            forall|p: u64, n: Seq<char>|
                old(self).resolves(p, n) ==> #[trigger] final(self).resolves(p, n),
            forall|p: u64, n: Seq<char>|
                #[trigger] old(self).resolves(p, n) ==> final(self).resolved_child(p, n) == old(
                    self,
                ).resolved_child(p, n),
            forall|k: int|
                0 <= k < r@.len() ==> offset + k < stored@.len() && final(self).inode_live(
                    (#[trigger] r@[k]).ino,
                ) && r@[k].kind == FileKind::Directory && r@[k].offset == offset + k + 1
                    && r@[k].name@ == Self::stored_display(stored@[offset + k]),
            (old(self).inode_count() + 2 * stored@.len() + 2 <= u64::MAX && stored@.len()
                <= i64::MAX) ==> r@.len() == (if offset <= stored@.len() {
                stored@.len() - offset
            } else {
                0
            }),
    {
        let mut out: Vec<DirEntry> = Vec::new();
        let mut idx = offset;
        if idx >= stored.len() {
            return out;
        }
        while idx < stored.len()
            invariant
                self.wf(),
                old(self).inode_count() <= self.inode_count(),
                forall|i: u64|
                    old(self).inode_live(i) ==> self.entry_spec(i) == old(self).entry_spec(i),
                forall|p: u64, n: Seq<char>|
                    old(self).resolves(p, n) ==> #[trigger] self.resolves(p, n),
                forall|p: u64, n: Seq<char>|
                    #[trigger] old(self).resolves(p, n) ==> self.resolved_child(p, n) == old(
                        self,
                    ).resolved_child(p, n),
                offset <= idx <= stored@.len(),
                out@.len() == idx - offset,
                forall|k: int|
                    0 <= k < out@.len() ==> offset + k < stored@.len() && self.inode_live(
                        (#[trigger] out@[k]).ino,
                    ) && out@[k].kind == FileKind::Directory && out@[k].offset == offset + k + 1
                        && out@[k].name@ == Self::stored_display(stored@[offset + k]),
                self.inode_count() <= old(self).inode_count() + 2 * (idx - offset),
            decreases stored@.len() - idx,
        {
            let ghost pre = *self;
            if (idx as u64) >= (i64::MAX as u64) {
                proof {
                    if stored@.len() <= i64::MAX {
                        assert(false);
                    }
                }
                return out;
            }
            let cookie = ((idx as u64) + 1) as i64;
            if !self.has_room() {
                proof {
                    if old(self).inode_count() + 2 * stored@.len() + 2 <= u64::MAX {
                        assert(self.inode_count() + 2 <= u64::MAX);
                        assert(false);
                    }
                }
                return out;
            }
            let sq = &stored[idx];
            let name = SanitisedStoredQuery(sq).render();
            let child_inode = self.entries.get_or_create_query_result_dir(
                sq.query.as_str(),
                name.as_str(),
            );
            out.push(
                DirEntry { ino: child_inode, offset: cookie, kind: FileKind::Directory, name },
            );
            idx += 1;
            proof {
                assert forall|i: u64|
                    old(self).inode_live(i) implies self.entry_spec(i) == old(self).entry_spec(
                    i,
                ) by {
                    assert(pre.inode_live(i));
                }
                assert forall|p: u64, n: Seq<char>|
                    old(self).resolves(p, n) implies #[trigger] self.resolves(p, n) by {
                    assert(pre.resolves(p, n));
                }
                assert forall|p: u64, n: Seq<char>|
                    #[trigger] old(self).resolves(p, n) implies self.resolved_child(p, n) == old(
                        self,
                    ).resolved_child(p, n) by {
                    assert(pre.resolves(p, n));
                }
                assert forall|k: int|
                    0 <= k < out@.len() implies offset + k < stored@.len() && self.inode_live(
                        (#[trigger] out@[k]).ino,
                    ) && out@[k].kind == FileKind::Directory && out@[k].offset == offset + k + 1
                        && out@[k].name@ == Self::stored_display(stored@[offset + k]) by {
                    if k < out@.len() - 1 {
                        assert(pre.inode_live(out@[k].ino));
                    }
                }
            }
        }
        out
    }

    /// Helper function to list (and materialise) the persisted stored
    /// queries under the query directory.
    fn readdir_query_dir(&mut self, offset: usize) -> (r: Result<Vec<DirEntry>, FatalError>)
        requires
            old(self).wf(),
        ensures
            final(self).wf(),
            old(self).inode_count() <= final(self).inode_count(),
            forall|i: u64|
                old(self).inode_live(i) ==> final(self).entry_spec(i) == old(self).entry_spec(i),
            r matches Ok(v) ==> forall|k: int|
                0 <= k < v@.len() ==> final(self).inode_live((#[trigger] v@[k]).ino) && (
                #[trigger] v@[k]).kind == FileKind::Directory,
            forall|p: u64, n: Seq<char>|
                old(self).resolves(p, n) ==> #[trigger] final(self).resolves(p, n),
            r matches Ok(v) ==> forall|k: int|
                0 <= k < v@.len() ==> (#[trigger] v@[k]).offset == offset + k + 1,
            forall|p: u64, n: Seq<char>|
                #[trigger] old(self).resolves(p, n) ==> final(self).resolved_child(p, n) == old(
                    self,
                ).resolved_child(p, n),
    {
        let stored = match self.db.stored_queries() {
            Ok(st) => st,
            Err(_) => {
                return Ok(Vec::new());
            },
        };
        Ok(self.stored_rows(&stored, offset))
    }

    /// Assembles (and materialises) one mirror row per entry of the
    /// listing table, from position `offset` on: the row's name and kind
    /// come straight from the table, a directory row becomes (or reuses)
    /// an intermediate directory and any other row a terminal file, and
    /// the resume cookie is the entry's position in the table plus one.
    /// While the inode table and the cookies have room, the rows are
    /// exactly the rest of the table.
    fn mirror_rows(&mut self, table: &Vec<MirrorRow>, inode: u64, offset: usize) -> (r: Vec<
        DirEntry,
    >)
        requires
            old(self).wf(),
            old(self).inode_live(inode),
        ensures
            final(self).wf(),
            old(self).inode_count() <= final(self).inode_count(),
            forall|i: u64|
                old(self).inode_live(i) ==> final(self).entry_spec(i) == old(self).entry_spec(i),
            forall|p: u64, n: Seq<char>|
                old(self).resolves(p, n) ==> #[trigger] final(self).resolves(p, n),
            forall|p: u64, n: Seq<char>|
                #[trigger] old(self).resolves(p, n) && p != inode ==> final(self).resolved_child(
                    p,
                    n,
                ) == old(self).resolved_child(p, n),
            forall|k: int|
                0 <= k < r@.len() ==> offset + k < table@.len() && final(self).inode_live(
                    (#[trigger] r@[k]).ino,
                ) && r@[k].kind == table@[offset + k].2 && r@[k].offset == offset + k + 1
                    && r@[k].name@ == table@[offset + k].0@ && entry_attr(
                    final(self).entry_spec(r@[k].ino),
                ).kind == (if table@[offset + k].2 == FileKind::Directory {
                    FileKind::Directory
                } else {
                    FileKind::RegularFile
                }),
            (old(self).inode_count() + table@.len() + 2 <= u64::MAX && table@.len() <= i64::MAX)
                ==> r@.len() == (if offset <= table@.len() {
                table@.len() - offset
            } else {
                0
            }),
    {
        let mut out: Vec<DirEntry> = Vec::new();
        let mut idx = offset;
        if idx >= table.len() {
            return out;
        }
        while idx < table.len()
            invariant
                self.wf(),
                old(self).inode_count() <= self.inode_count(),
                forall|i: u64|
                    old(self).inode_live(i) ==> self.entry_spec(i) == old(self).entry_spec(i),
                forall|p: u64, n: Seq<char>|
                    old(self).resolves(p, n) ==> #[trigger] self.resolves(p, n),
                forall|p: u64, n: Seq<char>|
                    #[trigger] old(self).resolves(p, n) && p != inode ==> self.resolved_child(
                        p,
                        n,
                    ) == old(self).resolved_child(p, n),
                self.inode_live(inode),
                offset <= idx <= table@.len(),
                out@.len() == idx - offset,
                forall|k: int|
                    0 <= k < out@.len() ==> offset + k < table@.len() && self.inode_live(
                        (#[trigger] out@[k]).ino,
                    ) && out@[k].kind == table@[offset + k].2 && out@[k].offset == offset + k + 1
                        && out@[k].name@ == table@[offset + k].0@ && entry_attr(
                        self.entry_spec(out@[k].ino),
                    ).kind == (if table@[offset + k].2 == FileKind::Directory {
                        FileKind::Directory
                    } else {
                        FileKind::RegularFile
                    }),
                self.inode_count() <= old(self).inode_count() + (idx - offset),
            decreases table@.len() - idx,
        {
            let ghost pre = *self;
            if (idx as u64) >= (i64::MAX as u64) {
                proof {
                    if table@.len() <= i64::MAX {
                        assert(false);
                    }
                }
                return out;
            }
            let cookie = ((idx as u64) + 1) as i64;
            if !self.has_room() {
                proof {
                    if old(self).inode_count() + table@.len() + 2 <= u64::MAX {
                        assert(self.inode_count() + 2 <= u64::MAX);
                        assert(false);
                    }
                }
                return out;
            }
            let row = &table[idx];
            let child_inode = if row.2 == FileKind::Directory {
                self.entries.get_or_create_all_tags_intermediate(
                    inode,
                    row.0.as_str(),
                    row.1.as_str(),
                )
            } else {
                self.entries.get_or_create_all_tags_terminal(
                    inode,
                    row.0.as_str(),
                    row.1.as_str(),
                )
            };
            out.push(
                DirEntry { ino: child_inode, offset: cookie, kind: row.2, name: row.0.clone() },
            );
            idx += 1;
            proof {
                assert forall|i: u64|
                    old(self).inode_live(i) implies self.entry_spec(i) == old(self).entry_spec(
                    i,
                ) by {
                    assert(pre.inode_live(i));
                }
                assert forall|p: u64, n: Seq<char>|
                    old(self).resolves(p, n) implies #[trigger] self.resolves(p, n) by {
                    assert(pre.resolves(p, n));
                }
                assert forall|p: u64, n: Seq<char>|
                    #[trigger] old(self).resolves(p, n) && p != inode implies self.resolved_child(
                        p,
                        n,
                    ) == old(self).resolved_child(p, n) by {
                    assert(pre.resolves(p, n));
                }
                assert forall|k: int|
                    0 <= k < out@.len() implies offset + k < table@.len() && self.inode_live(
                        (#[trigger] out@[k]).ino,
                    ) && out@[k].kind == table@[offset + k].2 && out@[k].offset == offset + k + 1
                        && out@[k].name@ == table@[offset + k].0@ && entry_attr(
                        self.entry_spec(out@[k].ino),
                    ).kind == (if table@[offset + k].2 == FileKind::Directory {
                        FileKind::Directory
                    } else {
                        FileKind::RegularFile
                    }) by {
                    if k < out@.len() - 1 {
                        assert(pre.inode_live(out@[k].ino));
                    }
                }
            }
        }
        out
    }

    /// Read a directory in the mirror hierarchy: the distinct next
    /// components of every stored path sharing this inode's prefix, in
    /// sorted order so offset paging is stable; a component with more path
    /// after it becomes an intermediate directory, anything else a
    /// `<basename>.tags` terminal.
    fn readdir_all_tags(&mut self, inode: u64, offset: usize) -> (r: Result<
        Vec<DirEntry>,
        FatalError,
    >)
        requires
            old(self).wf(),
            old(self).inode_live(inode),
            old(self).entry_spec(inode) is AllTagsDir || old(self).entry_spec(
                inode,
            ) is AllTagsIntermediate,
        ensures
            final(self).wf(),
            old(self).inode_count() <= final(self).inode_count(),
            forall|i: u64|
                old(self).inode_live(i) ==> final(self).entry_spec(i) == old(self).entry_spec(i),
            r matches Ok(v) ==> forall|k: int|
                0 <= k < v@.len() ==> final(self).inode_live((#[trigger] v@[k]).ino),
            forall|p: u64, n: Seq<char>|
                old(self).resolves(p, n) ==> #[trigger] final(self).resolves(p, n),
            r matches Ok(v) ==> forall|k: int|
                0 <= k < v@.len() ==> (#[trigger] v@[k]).offset == offset + k + 1,
            forall|p: u64, n: Seq<char>|
                #[trigger] old(self).resolves(p, n) && p != inode ==> final(self).resolved_child(
                    p,
                    n,
                ) == old(self).resolved_child(p, n),
    {
        let path = self.entries.get_path(inode).to_owned();
        let children = match self.db.paths_with_prefix(path.as_str()) {
            Ok(c) => c,
            Err(_) => {
                return Ok(Vec::new());
            },
        };
        let table = match mirror_listing_table(path.as_str(), &children) {
            Ok(t) => t,
            Err(e) => {
                return Err(e);
            },
        };
        Ok(self.mirror_rows(&table, inode, offset))
    }
}


/// The flat listing of the root directory: the reserved names `?` and
/// `tags`, then the given tag names in order.
pub open spec fn root_flat_names(tags: Seq<Seq<char>>) -> Seq<Seq<char>> {
    seq!["?"@, "tags"@] + tags
}

impl TagFS {
    /// Assembles (and materialises) the root listing from the store's tag
    /// list: the rows of the flat sequence `?`, `tags`, then one directory
    /// per tag, with the first `offset` rows skipped.  Each row's resume
    /// cookie is its flat position plus one, so offset paging walks the
    /// flat sequence; while the inode table and the cookies have room, the
    /// rows are exactly what remains of the flat sequence.
    fn root_rows(&mut self, tags: &Vec<String>, offset: usize) -> (r: Vec<DirEntry>)
        requires
            old(self).wf(),
        ensures
            final(self).wf(),
            old(self).inode_count() <= final(self).inode_count(),
            forall|i: u64|
                old(self).inode_live(i) ==> final(self).entry_spec(i) == old(self).entry_spec(i),
            forall|k: int| 0 <= k < r@.len() ==> final(self).inode_live((#[trigger] r@[k]).ino),
            forall|p: u64, n: Seq<char>|
                #[trigger] old(self).resolves(p, n) ==> final(self).resolves(p, n)
                    && final(self).resolved_child(p, n) == old(self).resolved_child(p, n),
            forall|k: int| 0 <= k < r@.len() ==> (#[trigger] r@[k]).kind == FileKind::Directory,
            forall|k: int| 0 <= k < r@.len() ==> (#[trigger] r@[k]).offset == offset + k + 1,
            forall|k: int|
                0 <= k < r@.len() ==> offset + k < root_flat_names(views_of(tags@)).len() && (
                #[trigger] r@[k]).name@ == root_flat_names(views_of(tags@))[offset + k],
            old(self).inode_count() + 2 <= u64::MAX && offset == 0 ==> r@.len() >= 2,
            old(self).inode_count() + 2 <= u64::MAX && offset == 1 ==> r@.len() >= 1,
            (old(self).inode_count() + tags@.len() + 4 <= u64::MAX && tags@.len() + 2
                <= i64::MAX) ==> r@.len() == (if offset <= tags@.len() + 2 {
                tags@.len() + 2 - offset
            } else {
                0
            }),
    {
        let ghost flat = root_flat_names(views_of(tags@));
        proof {
            assert(flat.len() == tags@.len() + 2);
            assert(flat[0] == "?"@);
            assert(flat[1] == "tags"@);
            assert forall|t: int| 0 <= t < tags@.len() implies #[trigger] flat[t + 2]
                == tags@[t]@ by {
                assert(flat[t + 2] == views_of(tags@)[t]);
            }
        }
        let mut out: Vec<DirEntry> = Vec::new();
        if !self.has_room() {
            return out;
        }
        let qd = self.entries.get_or_create_query_directory();
        let ghost mid = *self;
        let atd = self.entries.get_or_create_all_tags_dir();
        proof {
            assert(self.inode_live(qd)) by { assert(mid.inode_live(qd)); }
        }
        if offset == 0 {
            out.push(
                DirEntry {
                    ino: qd,
                    offset: 1,
                    kind: FileKind::Directory,
                    name: String::from_str("?"),
                },
            );
        }
        if offset <= 1 {
            out.push(
                DirEntry {
                    ino: atd,
                    offset: 2,
                    kind: FileKind::Directory,
                    name: String::from_str("tags"),
                },
            );
        }
        let ghost base = out@.len() as int;
        let skip: usize = if offset <= 2 {
            0
        } else {
            offset - 2
        };
        if skip > tags.len() {
            return out;
        }
        let mut ti: usize = skip;
        while ti < tags.len()
            invariant
                self.wf(),
                old(self).inode_count() <= self.inode_count(),
                forall|i: u64|
                    old(self).inode_live(i) ==> self.entry_spec(i) == old(self).entry_spec(i),
                forall|k: int| 0 <= k < out@.len() ==> self.inode_live((#[trigger] out@[k]).ino),
                forall|p: u64, n: Seq<char>|
                    #[trigger] old(self).resolves(p, n) ==> self.resolves(p, n)
                        && self.resolved_child(p, n) == old(self).resolved_child(p, n),
                forall|k: int|
                    0 <= k < out@.len() ==> (#[trigger] out@[k]).kind == FileKind::Directory,
                forall|k: int|
                    0 <= k < out@.len() ==> (#[trigger] out@[k]).offset == offset + k + 1,
                forall|k: int|
                    0 <= k < out@.len() ==> offset + k < flat.len() && (#[trigger] out@[k]).name@
                        == flat[offset + k],
                flat == root_flat_names(views_of(tags@)),
                flat.len() == tags@.len() + 2,
                skip == (if offset <= 2 {
                    0int
                } else {
                    offset - 2
                }),
                base == (if offset == 0 {
                    2int
                } else if offset == 1 {
                    1int
                } else {
                    0int
                }),
                base + offset == skip + 2,
                skip <= ti <= tags@.len(),
                out@.len() == base + ti - skip,
                self.inode_count() <= old(self).inode_count() + 2 + (ti - skip),
                forall|t: int| 0 <= t < tags@.len() ==> #[trigger] flat[t + 2] == tags@[t]@,
            decreases tags@.len() - ti,
        {
            let ghost pre = *self;
            if !self.has_room() {
                proof {
                    if old(self).inode_count() + tags@.len() + 4 <= u64::MAX {
                        assert(self.inode_count() + 2 <= u64::MAX);
                        assert(false);
                    }
                }
                return out;
            }
            if (ti as u64) > (i64::MAX as u64) - 3 {
                proof {
                    if tags@.len() + 2 <= i64::MAX {
                        assert(false);
                    }
                }
                return out;
            }
            let cookie = ((ti as u64) + 3) as i64;
            proof {
                self.entries.lemma_root_live();
            }
            let child = self.entries.get_or_create_tag_directory(ROOT_INODE, tags[ti].as_str());
            out.push(
                DirEntry { ino: child, offset: cookie, kind: FileKind::Directory, name: tags[
                    ti].clone() },
            );
            ti += 1;
            proof {
                assert forall|i: u64|
                    old(self).inode_live(i) implies self.entry_spec(i) == old(self).entry_spec(
                    i,
                ) by {
                    assert(pre.inode_live(i));
                }
                assert forall|k: int|
                    0 <= k < out@.len() implies self.inode_live((#[trigger] out@[k]).ino) by {
                    if k < out@.len() - 1 {
                        assert(pre.inode_live(out@[k].ino));
                    }
                }
                assert forall|p: u64, n: Seq<char>|
                    #[trigger] old(self).resolves(p, n) implies self.resolves(p, n)
                        && self.resolved_child(p, n) == old(self).resolved_child(p, n) by {
                    assert(pre.resolves(p, n));
                }
                assert(out@[out@.len() - 1].name@ == flat[ti - 1 + 2]);
            }
        }
        out
    }

    /// Helper function to list (and materialise) the root directory: the
    /// two reserved children, then one tag directory per stored tag, the
    /// offset indexing that flat sequence.  The store's tag list decides
    /// the rows through [`TagFS::root_rows`], which pins each one.
    fn readdir_root(&mut self, offset: usize) -> (r: Vec<DirEntry>)
        requires
            old(self).wf(),
        ensures
            final(self).wf(),
            old(self).inode_count() <= final(self).inode_count(),
            forall|i: u64|
                old(self).inode_live(i) ==> final(self).entry_spec(i) == old(self).entry_spec(i),
            forall|k: int| 0 <= k < r@.len() ==> final(self).inode_live((#[trigger] r@[k]).ino),
            forall|p: u64, n: Seq<char>|
                #[trigger] old(self).resolves(p, n) ==> final(self).resolves(p, n)
                    && final(self).resolved_child(p, n) == old(self).resolved_child(p, n),
            forall|k: int| 0 <= k < r@.len() ==> (#[trigger] r@[k]).kind == FileKind::Directory,
            forall|k: int| 0 <= k < r@.len() ==> (#[trigger] r@[k]).offset == offset + k + 1,
            old(self).inode_count() + 2 <= u64::MAX && offset == 0 ==> r@.len() >= 2
                && r@[0].name@ == "?"@ && r@[1].name@ == "tags"@,
            old(self).inode_count() + 2 <= u64::MAX && offset == 1 ==> r@.len() >= 1
                && r@[0].name@ == "tags"@,
    {
        let tags = match self.db.all_tags() {
            Ok(t) => t,
            Err(_) => Vec::new(),
        };
        let ghost mid = *self;
        let r = self.root_rows(&tags, offset);
        proof {
            assert(root_flat_names(views_of(tags@))[0] == "?"@);
            assert(root_flat_names(views_of(tags@))[1] == "tags"@);
            assert(mid.entries == old(self).entries);
            assert forall|p: u64, n: Seq<char>|
                #[trigger] old(self).resolves(p, n) implies self.resolves(p, n)
                    && self.resolved_child(p, n) == old(self).resolved_child(p, n) by {
                assert(mid.resolves(p, n));
                assert(mid.resolved_child(p, n) == old(self).resolved_child(p, n));
            }
        }
        r
    }

    /// Helper function that is called by both readdir and lookup: lists
    /// (and materialises) the children of a directory by its shape.
    ///
    /// Calling it for a tag directory whose tag has vanished from the
    /// store, or for the root, is the kind of inconsistency the spec
    /// treats as fatal.
    fn readdir_helper(&mut self, inode: u64, offset: usize) -> (r: Result<
        Vec<DirEntry>,
        FatalError,
    >)
        requires
            old(self).wf(),
            old(self).inode_live(inode),
        ensures
            final(self).wf(),
            old(self).inode_count() <= final(self).inode_count(),
            forall|i: u64|
                old(self).inode_live(i) ==> final(self).entry_spec(i) == old(self).entry_spec(i),
            r matches Ok(v) ==> forall|k: int|
                0 <= k < v@.len() ==> final(self).inode_live((#[trigger] v@[k]).ino),
            forall|p: u64, n: Seq<char>|
                old(self).resolves(p, n) ==> #[trigger] final(self).resolves(p, n),
            r matches Ok(v) ==> forall|k: int|
                0 <= k < v@.len() ==> (#[trigger] v@[k]).offset == offset + k + 1,
            forall|p: u64, n: Seq<char>|
                #[trigger] old(self).resolves(p, n) && p != inode ==> final(self).resolved_child(
                    p,
                    n,
                ) == old(self).resolved_child(p, n),
            old(self).entry_spec(inode) is Root ==> r is Err,
            (old(self).entry_spec(inode) is Link || old(self).entry_spec(
                inode,
            ) is AllTagsTerminal) ==> (r matches Ok(v) && v@.len() == 0),
    {
        proof {
            self.entries.lemma_kind_nature(inode);
        }
        let attr = self.entries.get_attr(inode);
        if attr.kind != FileKind::Directory {
            return Ok(Vec::new());
        }
        match self.entries.get_type(inode) {
            EntryType::TagDir => {
                let name = self.entries.get_name(inode).to_owned();
                match self.db.get_tag(name.as_str()) {
                    Some(tag) => {
                        if tag.takes_value {
                            self.readdir_values(tag.name.as_str(), inode, offset)
                        } else {
                            self.readdir_files(tag.name.as_str(), None, inode, offset)
                        }
                    },
                    None => Err(
                        fatal("tried to list a tag directory without a tag in the store"),
                    ),
                }
            },
            EntryType::ValueDir => {
                let tag_name = self.entries.get_parent_tag(inode).to_owned();
                let value = self.entries.get_tag_value(inode).to_owned();
                self.readdir_files(tag_name.as_str(), Some(value.as_str()), inode, offset)
            },
            EntryType::QueryDir => self.readdir_query_dir(offset),
            EntryType::QueryResultDir => self.readdir_query(inode, offset),
            EntryType::AllTagsDir | EntryType::AllTagsIntermediate => self.readdir_all_tags(
                inode,
                offset,
            ),
            EntryType::Root | EntryType::Link | EntryType::AllTagsTerminal => Err(
                fatal("cannot list a non-directory"),
            ),
        }
    }

    /// List a directory from the given offset: the root's flat sequence,
    /// or the children of any other directory.  Listing a dead inode is
    /// fatal.
    pub fn readdir(&mut self, inode: u64, offset: usize) -> (r: Result<Vec<DirEntry>, FatalError>)
        requires
            old(self).wf(),
        ensures
            final(self).wf(),
            old(self).inode_count() <= final(self).inode_count(),
            forall|i: u64|
                old(self).inode_live(i) ==> final(self).entry_spec(i) == old(self).entry_spec(i),
            r matches Ok(v) ==> forall|k: int|
                0 <= k < v@.len() ==> final(self).inode_live((#[trigger] v@[k]).ino),
            forall|p: u64, n: Seq<char>|
                old(self).resolves(p, n) ==> #[trigger] final(self).resolves(p, n),
            r matches Ok(v) ==> forall|k: int|
                0 <= k < v@.len() ==> (#[trigger] v@[k]).offset == offset + k + 1,
            inode != ROOT_INODE && !old(self).inode_live(inode) ==> r is Err,
            r is Err ==> inode != ROOT_INODE,
            inode != ROOT_INODE && old(self).inode_live(inode) && (old(self).entry_spec(
                inode,
            ) is Link || old(self).entry_spec(inode) is AllTagsTerminal) ==> (r matches Ok(v)
                && v@.len() == 0),
            forall|p: u64, n: Seq<char>|
                #[trigger] old(self).resolves(p, n) && p != inode ==> final(self).resolved_child(
                    p,
                    n,
                ) == old(self).resolved_child(p, n),
    {
        if inode == ROOT_INODE {
            Ok(self.readdir_root(offset))
        } else if !self.has_inode(inode) {
            Err(fatal("tried to list a non-existent inode"))
        } else {
            self.readdir_helper(inode, offset)
        }
    }

    /// Answers a lookup from the current graph: the attribute block of
    /// the child the name resolves to right now, or nothing.
    fn resolve_attr(&self, parent: u64, name: &str) -> (r: Option<Attr>)
        requires
            self.wf(),
        ensures
            r matches Some(a) ==> self.inode_live(a.ino) && a == entry_attr(
                self.entry_spec(a.ino),
            ) && self.resolves(parent, name@) && self.resolved_child(parent, name@) == a.ino,
            self.resolves(parent, name@) ==> r is Some,
    {
        match self.entries.try_get_inode(parent, name) {
            Some(c) => {
                proof {
                    self.entries.lemma_attr_ino(c);
                }
                Some(self.entries.get_attr(c))
            },
            None => None,
        }
    }

    /// Resolve `name` under `parent`, materialising the child's own
    /// children on the way so that a caller that never lists directories
    /// still sees coherent structure; `None` is "no such entry".
    ///
    /// Under the root the reserved names resolve without consulting the
    /// store; any other name resolves when the store knows it as a tag.
    /// Under the query directory a fresh name is an ad-hoc query: it
    /// resolves to a result directory when the store accepts the query and
    /// to nothing when the query does not even lex and translate.  A name
    /// that already resolves under its parent keeps the inode it had.
    pub fn lookup(&mut self, parent: u64, name: &str) -> (r: Result<Option<Attr>, FatalError>)
        requires
            old(self).wf(),
        ensures
            final(self).wf(),
            old(self).inode_count() <= final(self).inode_count(),
            forall|i: u64|
                old(self).inode_live(i) ==> final(self).entry_spec(i) == old(self).entry_spec(i),
            forall|p: u64, n: Seq<char>|
                old(self).resolves(p, n) ==> #[trigger] final(self).resolves(p, n),
            parent == ROOT_INODE && (name@ == "?"@ || name@ == "tags"@) && old(
                self,
            ).inode_count() + 2 <= u64::MAX ==> !(r matches Ok(None)),
            r matches Ok(Some(a)) ==> final(self).inode_live(a.ino) && a == entry_attr(
                final(self).entry_spec(a.ino),
            ) && final(self).resolves(parent, name@) && final(self).resolved_child(
                parent,
                name@,
            ) == a.ino,
            old(self).resolves(parent, name@) ==> (r matches Ok(Some(a)) ==> a.ino == old(
                self,
            ).resolved_child(parent, name@)),
            (old(self).inode_live(parent) && old(self).entry_spec(parent) is QueryDir && !old(
                self,
            ).resolves(parent, name@) && to_sql_spec(lex_spec(name@), false) is None) ==> (
            r matches Ok(None)),
    {
        if parent == ROOT_INODE {
            let is_query_name = str_eq(name, "?");
            let is_mirror_name = str_eq(name, "tags");
            if is_query_name || is_mirror_name {
                if !self.has_room() {
                    return Ok(None);
                }
                let qd = self.entries.get_or_create_query_directory();
                let atd = self.entries.get_or_create_all_tags_dir();
                let ino = if is_query_name {
                    qd
                } else {
                    atd
                };
                let ghost mid = *self;
                let _preload_root = self.readdir_root(0);
                let preload = self.readdir_helper(ino, 0);
                proof {
                    assert(mid.resolves(ROOT_INODE, name@));
                    assert(self.resolves(ROOT_INODE, name@));
                    assert forall|i: u64|
                        old(self).inode_live(i) implies self.entry_spec(i) == old(
                        self,
                    ).entry_spec(i) by {
                        assert(mid.inode_live(i));
                    }
                    assert forall|p: u64, n: Seq<char>|
                        old(self).resolves(p, n) implies #[trigger] self.resolves(p, n) by {
                        assert(mid.resolves(p, n));
                    }
                    if old(self).resolves(parent, name@) {
                        mid.entries.lemma_child_above(ROOT_INODE, name@);
                        assert(ino != ROOT_INODE);
                        assert(self.resolved_child(parent, name@) == old(self).resolved_child(
                            parent,
                            name@,
                        ));
                    }
                    if old(self).inode_live(parent) && old(self).entry_spec(parent) is QueryDir {
                        old(self).entries.lemma_root_live();
                        assert(false);
                    }
                }
                match preload {
                    Ok(_) => {
                        return Ok(self.resolve_attr(parent, name));
                    },
                    Err(e) => {
                        return Err(e);
                    },
                }
            }
            let _preload_root = self.readdir_root(0);
            let ghost s1 = *self;
            let tags = match self.db.all_tags() {
                Ok(t) => t,
                Err(_) => Vec::new(),
            };
            proof {
                assert forall|p: u64, n: Seq<char>|
                    old(self).resolves(p, n) implies #[trigger] self.resolves(p, n) by {
                    assert(s1.resolves(p, n));
                }
            }
            let mut matches_tag = false;
            let mut ti: usize = 0;
            while ti < tags.len()
                invariant
                    self.wf(),
                    old(self).inode_count() <= self.inode_count(),
                    forall|i: u64|
                        old(self).inode_live(i) ==> self.entry_spec(i) == old(self).entry_spec(
                            i,
                        ),
                    forall|p: u64, n: Seq<char>|
                        old(self).resolves(p, n) ==> #[trigger] self.resolves(p, n),
                    ti <= tags@.len(),
                decreases tags@.len() - ti,
            {
                if str_eq(tags[ti].as_str(), name) {
                    matches_tag = true;
                    break ;
                }
                ti += 1;
            }
            if !matches_tag {
                return Ok(None);
            }
            if !self.has_room() {
                return Ok(None);
            }
            let ghost pre = *self;
            proof {
                self.entries.lemma_root_live();
            }
            let ino = self.entries.get_or_create_tag_directory(ROOT_INODE, name);
            let ghost mid = *self;
            let preload = self.readdir_helper(ino, 0);
            proof {
                assert forall|i: u64|
                    old(self).inode_live(i) implies self.entry_spec(i) == old(self).entry_spec(
                    i,
                ) by {
                    assert(pre.inode_live(i));
                    assert(mid.inode_live(i));
                }
                assert forall|p: u64, n: Seq<char>|
                    old(self).resolves(p, n) implies #[trigger] self.resolves(p, n) by {
                    assert(pre.resolves(p, n));
                    assert(mid.resolves(p, n));
                }
                if old(self).resolves(parent, name@) {
                    assert(pre.resolves(parent, name@));
                    assert(pre.resolved_child(parent, name@) == old(self).resolved_child(
                        parent,
                        name@,
                    ));
                    assert(mid.resolves(parent, name@));
                    assert(mid.resolved_child(parent, name@) == pre.resolved_child(
                        parent,
                        name@,
                    ));
                    mid.entries.lemma_child_above(ROOT_INODE, name@);
                    assert(ino != ROOT_INODE);
                    assert(self.resolved_child(parent, name@) == mid.resolved_child(
                        parent,
                        name@,
                    ));
                }
                if old(self).inode_live(parent) && old(self).entry_spec(parent) is QueryDir {
                    old(self).entries.lemma_root_live();
                    assert(false);
                }
            }
            match preload {
                Ok(_) => Ok(self.resolve_attr(parent, name)),
                Err(e) => Err(e),
            }
        } else {
            if !self.has_room() {
                return Ok(None);
            }
            let qd = self.entries.get_or_create_query_directory();
            proof {
                assert forall|i: u64|
                    old(self).inode_live(i) implies self.entry_spec(i) == old(self).entry_spec(
                    i,
                ) by {}
            }
            if parent == qd {
                if !self.has_room() {
                    return Ok(None);
                }
                let ghost pre = *self;
                let ino = self.entries.get_or_create_query_result_dir(name, name);
                let ghost made = *self;
                proof {
                    assert forall|i: u64|
                        old(self).inode_live(i) implies self.entry_spec(i) == old(
                        self,
                    ).entry_spec(i) by {
                        assert(pre.inode_live(i));
                    }
                    assert forall|p: u64, n: Seq<char>|
                        old(self).resolves(p, n) implies #[trigger] self.resolves(p, n) by {
                        assert(pre.resolves(p, n));
                    }
                    if old(self).inode_live(parent) && !old(self).resolves(parent, name@) {
                        // A live parent equal to the query directory means the
                        // directory existed before the call, so the result
                        // directory was made fresh and its query text is the name.
                        if !old(self).resolves(ROOT_INODE, "?"@) {
                            assert(qd == old(self).inode_count() + 1);
                            assert(false);
                        }
                        assert(pre == *old(self));
                        assert((made.entry_spec(ino) matches Entry::QueryResultDir {
                            query: q,
                            ..
                        } && q@ == name@));
                    }
                }
                if !matches!(self.entries.get_type(ino), EntryType::QueryResultDir) {
                    return Ok(None);
                }
                let query = self.entries.get_query(ino).to_owned();
                if self.db.query(query.as_str(), false).is_err() {
                    return Ok(None);
                }
                proof {
                    if old(self).inode_live(parent) && old(self).entry_spec(parent) is QueryDir
                        && !old(self).resolves(parent, name@) && to_sql_spec(
                        lex_spec(name@),
                        false,
                    ) is None {
                        assert(query@ == name@);
                        assert(false);
                    }
                }
                let ghost mid = *self;
                let preload = self.readdir_helper(ino, 0);
                proof {
                    assert forall|i: u64|
                        old(self).inode_live(i) implies self.entry_spec(i) == old(
                        self,
                    ).entry_spec(i) by {
                        assert(mid.inode_live(i));
                    }
                    assert forall|p: u64, n: Seq<char>|
                        old(self).resolves(p, n) implies #[trigger] self.resolves(p, n) by {
                        assert(mid.resolves(p, n));
                    }
                    if old(self).resolves(parent, name@) {
                        assert(made.resolved_child(parent, name@) == ino);
                        assert(made.resolved_child(parent, name@) == old(self).resolved_child(
                            parent,
                            name@,
                        ));
                        assert(mid.resolves(parent, name@));
                        assert(mid.resolved_child(parent, name@) == ino);
                        mid.entries.lemma_child_above(parent, name@);
                        assert(ino != parent);
                        assert(self.resolved_child(parent, name@) == mid.resolved_child(
                            parent,
                            name@,
                        ));
                    }
                }
                match preload {
                    Ok(_) => Ok(self.resolve_attr(parent, name)),
                    Err(e) => Err(e),
                }
            } else {
                match self.entries.try_get_inode(parent, name) {
                    Some(ino) => {
                        let ghost mid = *self;
                        let preload = self.readdir_helper(ino, 0);
                        proof {
                            assert forall|i: u64|
                                old(self).inode_live(i) implies self.entry_spec(i) == old(
                                self,
                            ).entry_spec(i) by {
                                assert(mid.inode_live(i));
                            }
                            assert forall|p: u64, n: Seq<char>|
                                old(self).resolves(p, n) implies #[trigger] self.resolves(
                                p,
                                n,
                            ) by {
                                assert(mid.resolves(p, n));
                            }
                            if old(self).resolves(parent, name@) {
                                assert(mid.resolves(parent, name@));
                                assert(mid.resolved_child(parent, name@) == ino);
                                assert(mid.resolved_child(parent, name@) == old(
                                    self,
                                ).resolved_child(parent, name@));
                                mid.entries.lemma_child_above(parent, name@);
                                assert(ino != parent);
                                assert(self.resolved_child(parent, name@) == mid.resolved_child(
                                    parent,
                                    name@,
                                ));
                            }
                            if old(self).inode_live(parent) && old(self).entry_spec(parent)
                                is QueryDir && !old(self).resolves(parent, name@) {
                                old(self).entries.lemma_root_live();
                                assert(parent != ROOT_INODE);
                                assert(false);
                            }
                        }
                        match preload {
                            Ok(_) => Ok(self.resolve_attr(parent, name)),
                            Err(e) => Err(e),
                        }
                    },
                    None => Ok(None),
                }
            }
        }
    }
}

} // verus!
