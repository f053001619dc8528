//! The textual edit representation of the store.
//!
//! ```mono
//! ...
//! --------
//! /path/to/tagged/file
//! tag1=value
//! tag2
//! tag3=long\ value
//! --AUTO--
//! autotag=autovalue
//! --------
//! ...
//! ```
//!
//! Each block is delimited by a line of hyphens; its first meaningful line
//! is the path, the rest are tags, with everything after a `--AUTO--` line
//! marked automatic.  Comments start with `//` at column 0 and blank lines
//! are skipped.  Parsing validates the whole dump before anything touches
//! the store.

use vstd::prelude::*;

use super::query::{escaped_fmt, parse_tag_value_spec, EscapedTagFormatter, TagValuePair};
use super::{Tag, TagMapping};
use crate::error::TagError;
use crate::text::{str_eq, str_to_chars};

verus! {

/// One parsed tag row: the automatic flag and the `(tag, value)` pair.
pub type EditPair = (bool, (Seq<char>, Option<Seq<char>>));

/// One parsed block target: a path with its tag rows.
pub type EditGroup = (Seq<char>, Seq<EditPair>);

/// What one `(auto, pair)` entry stands for.
pub open spec fn pair_view(p: (bool, TagValuePair)) -> EditPair {
    (
        p.0,
        (
            p.1.tag@,
            match p.1.value {
                Some(v) => Some(v@),
                None => None,
            },
        ),
    )
}

/// What a list of `(auto, pair)` entries stands for.
pub open spec fn pairs_view(s: Seq<(bool, TagValuePair)>) -> Seq<EditPair> {
    s.map_values(|p: (bool, TagValuePair)| pair_view(p))
}

/// What one `(path, entries)` group stands for.
pub open spec fn group_view(g: (String, Vec<(bool, TagValuePair)>)) -> EditGroup {
    (g.0@, pairs_view(g.1@))
}

/// What a list of groups stands for.
pub open spec fn groups_view(s: Seq<(String, Vec<(bool, TagValuePair)>)>) -> Seq<EditGroup> {
    s.map_values(|g: (String, Vec<(bool, TagValuePair)>)| group_view(g))
}

/// Appends a block's rows to the group of its path, keeping first-seen
/// path order; a fresh path starts a new group at the end.
pub open spec fn groups_add(gs: Seq<EditGroup>, path: Seq<char>, tags: Seq<EditPair>) -> Seq<
    EditGroup,
>
    decreases gs.len(),
{
    if gs.len() == 0 {
        seq![(path, tags)]
    } else if gs[0].0 == path {
        seq![(gs[0].0, gs[0].1 + tags)] + gs.drop_first()
    } else {
        seq![gs[0]] + groups_add(gs.drop_first(), path, tags)
    }
}

/// The text split at newlines, as the dump is read back line by line (a
/// final newline ends the last line rather than opening an empty one).
pub open spec fn split_lines(s: Seq<char>) -> Seq<Seq<char>>
    decreases s.len(),
    via split_lines_dec
{
    if s.len() == 0 {
        Seq::<Seq<char>>::empty()
    } else {
        let line = line_head(s);
        let consumed = if line.len() < s.len() {
            line.len() + 1
        } else {
            line.len()
        };
        seq![line] + split_lines(s.skip(consumed as int))
    }
}

/// The first line of the text: everything up to (not including) the first
/// newline.
pub open spec fn line_head(s: Seq<char>) -> Seq<char>
    decreases s.len(),
{
    if s.len() == 0 || s[0] == '\n' {
        Seq::<char>::empty()
    } else {
        seq![s[0]] + line_head(s.drop_first())
    }
}

#[via_fn]
proof fn split_lines_dec(s: Seq<char>) {
    if s.len() > 0 {
        lemma_line_head_len(s);
    }
}

proof fn lemma_line_head_len(s: Seq<char>)
    ensures
        line_head(s).len() <= s.len(),
    decreases s.len(),
{
    if s.len() > 0 && s[0] != '\n' {
        lemma_line_head_len(s.drop_first());
    }
}

/// What every unicode white-space character is; only the plain space is
/// pinned down here, the rest is whatever the standard library decides.
pub uninterp spec fn is_unicode_whitespace(c: char) -> bool;

/// Relies on `char::is_whitespace`: whether the character has the
/// White_Space property (the plain space does).
#[verifier::external_body]
fn char_is_whitespace(c: char) -> (r: bool)
    ensures
        r == is_unicode_whitespace(c),
        c == ' ' ==> r,
{
    c.is_whitespace()
}

/// A line the parser skips: empty, all white space, or a comment.
pub open spec fn is_skippable_line(line: Seq<char>) -> bool {
    ||| line.len() == 0
    ||| (forall|k: int| 0 <= k < line.len() ==> is_unicode_whitespace(#[trigger] line[k]))
    ||| (line.len() >= 2 && line.take(2) == "//"@)
}

/// The parser's state between lines.
pub struct EditState {
    pub inside: bool,
    pub auto: bool,
    pub path: Option<Seq<char>>,
    pub cur: Seq<EditPair>,
    pub groups: Seq<EditGroup>,
}

/// The parser's starting state.
pub open spec fn edit_init() -> EditState {
    EditState { inside: false, auto: false, path: None, cur: Seq::empty(), groups: Seq::empty() }
}

/// One line's effect on the parser's state; `None` is a tag line that
/// does not parse.
pub open spec fn edit_step(st: EditState, line: Seq<char>) -> Option<EditState> {
    if is_skippable_line(line) {
        Some(st)
    } else if line == "--------"@ && st.inside {
        // The auto marker is scoped to its block, so closing one resets it.
        Some(
            EditState {
                inside: false,
                auto: false,
                path: None,
                cur: Seq::empty(),
                groups: match st.path {
                    Some(p) => groups_add(st.groups, p, st.cur),
                    None => st.groups,
                },
            },
        )
    } else if line == "--------"@ {
        Some(EditState { inside: true, ..st })
    } else if st.inside && line == "--AUTO--"@ {
        Some(EditState { auto: true, ..st })
    } else if st.inside && st.path is None {
        Some(EditState { path: Some(line), ..st })
    } else if st.inside {
        match parse_tag_value_spec(line) {
            Some(pair) => Some(EditState { cur: st.cur.push((st.auto, pair)), ..st }),
            None => None,
        }
    } else {
        Some(st)
    }
}

/// The parser run over a whole dump.
pub open spec fn edit_run(lines: Seq<Seq<char>>, st: EditState) -> Option<EditState>
    decreases lines.len(),
{
    if lines.len() == 0 {
        Some(st)
    } else {
        match edit_step(st, lines[0]) {
            Some(st2) => edit_run(lines.drop_first(), st2),
            None => None,
        }
    }
}

/// What a dump parses to: the groups accumulated by the run (an
/// unterminated final block is dropped), or nothing when some tag line
/// does not parse.
pub open spec fn parse_edit_spec(s: Seq<char>) -> Option<Seq<EditGroup>> {
    match edit_run(split_lines(s), edit_init()) {
        Some(st) => Some(st.groups),
        None => None,
    }
}

/// Splits a dump into lines.
fn split_lines_exec(input: &str) -> (r: Vec<String>)
    ensures
        r@.map_values(|l: String| l@) == split_lines(input@),
{
    let cs = str_to_chars(input);
    let ghost full = input@;
    let n = cs.len();
    let mut out: Vec<String> = Vec::new();
    let mut i: usize = 0;
    proof {
        assert(full.skip(0) =~= full);
        assert(out@.map_values(|l: String| l@) =~= Seq::<Seq<char>>::empty());
    }
    while i < n
        invariant
            cs@ == full,
            n == full.len(),
            i <= n,
            split_lines(full) == out@.map_values(|l: String| l@) + split_lines(
                full.skip(i as int),
            ),
        decreases n - i,
    {
        let ghost s0 = full.skip(i as int);
        let mut line: Vec<char> = Vec::new();
        let start = i;
        proof {
            assert(line@ =~= line_head(s0).take(0));
            lemma_line_head_len(s0);
        }
        while i < n && cs[i] != '\n'
            invariant
                cs@ == full,
                n == full.len(),
                start <= i <= n,
                s0 == full.skip(start as int),
                line@ == full.subrange(start as int, i as int),
                line_head(s0) == line@ + line_head(full.skip(i as int)),
            decreases n - i,
        {
            let ghost b_old = line@;
            let ghost j = i as int;
            line.push(cs[i]);
            i += 1;
            proof {
                assert(full.skip(j)[0] == full[j]);
                assert(full.skip(j).drop_first() =~= full.skip(j + 1));
                crate::text::lemma_subrange_push(full, start as int, j, b_old);
                assert(b_old + (seq![full[j]] + line_head(full.skip(i as int))) =~= (b_old
                    + seq![full[j]]) + line_head(full.skip(i as int)));
                assert(b_old + seq![full[j]] =~= b_old.push(full[j]));
            }
        }
        proof {
            if i < n {
                assert(full.skip(i as int)[0] == full[i as int]);
            }
            assert(line_head(full.skip(i as int)) =~= Seq::<char>::empty());
            assert(line@ + Seq::<char>::empty() =~= line@);
            assert(line_head(s0) == line@);
        }
        let ghost consumed_ghost: int = if i < n {
            i - start + 1
        } else {
            i - start
        };
        if i < n {
            i += 1;
        }
        let s = crate::text::chars_to_string(&line);
        let ghost prev = out@;
        out.push(s);
        proof {
            assert(line_head(s0).len() == i as int - start - (if (i as int) - start
                > line_head(s0).len() {
                1int
            } else {
                0int
            }));
            assert(s0.len() > 0);
            assert(s0.skip(consumed_ghost) =~= full.skip(i as int));
            assert(split_lines(s0) == seq![line@] + split_lines(full.skip(i as int)));
            assert(out@.map_values(|l: String| l@) =~= prev.map_values(|l: String| l@) + seq![
                line@,
            ]);
            assert((prev.map_values(|l: String| l@) + seq![line@]) + split_lines(
                full.skip(i as int),
            ) =~= prev.map_values(|l: String| l@) + (seq![line@] + split_lines(
                full.skip(i as int),
            )));
        }
    }
    proof {
        assert(full.skip(n as int) =~= Seq::<char>::empty());
        assert(split_lines(full.skip(n as int)) =~= Seq::<Seq<char>>::empty());
        assert(out@.map_values(|l: String| l@) + Seq::<Seq<char>>::empty() =~= out@.map_values(
            |l: String| l@,
        ));
    }
    out
}

fn is_skippable_line_exec(line: &str) -> (r: bool)
    ensures
        r == is_skippable_line(line@),
{
    let cs = str_to_chars(line);
    if cs.len() == 0 {
        return true;
    }
    let mut all_ws = true;
    let mut k: usize = 0;
    while k < cs.len()
        invariant_except_break
            all_ws,
            forall|j: int| 0 <= j < k ==> is_unicode_whitespace(#[trigger] line@[j]),
        invariant
            cs@ == line@,
            k <= line@.len(),
        ensures
            all_ws == forall|j: int|
                0 <= j < line@.len() ==> is_unicode_whitespace(#[trigger] line@[j]),
        decreases cs@.len() - k,
    {
        if !char_is_whitespace(cs[k]) {
            all_ws = false;
            proof {
                assert(!is_unicode_whitespace(line@[k as int]));
            }
            break ;
        }
        k += 1;
    }
    if all_ws {
        return true;
    }
    if cs.len() >= 2 && cs[0] == '/' && cs[1] == '/' {
        proof {
            reveal_strlit("//");
            assert(line@.take(2) =~= "//"@);
        }
        return true;
    }
    proof {
        reveal_strlit("//");
        if line@.len() >= 2 && line@.take(2) == "//"@ {
            assert(line@.take(2)[0] == line@[0]);
            assert(line@.take(2)[1] == line@[1]);
            assert(line@[0] == '/' && line@[1] == '/');
        }
    }
    false
}


/// The view of an optional owned path.
pub open spec fn opt_view(o: Option<String>) -> Option<Seq<char>> {
    match o {
        Some(p) => Some(p@),
        None => None,
    }
}

proof fn lemma_groups_add_found(gs: Seq<EditGroup>, path: Seq<char>, tags: Seq<EditPair>, j: int)
    requires
        0 <= j < gs.len(),
        gs[j].0 == path,
        forall|k: int| 0 <= k < j ==> (#[trigger] gs[k]).0 != path,
    ensures
        groups_add(gs, path, tags) == gs.update(j, (gs[j].0, gs[j].1 + tags)),
    decreases j,
{
    if j == 0 {
        assert(groups_add(gs, path, tags) == seq![(gs[0].0, gs[0].1 + tags)] + gs.drop_first());
        assert(seq![(gs[0].0, gs[0].1 + tags)] + gs.drop_first() =~= gs.update(
            0,
            (gs[0].0, gs[0].1 + tags),
        ));
    } else {
        assert(gs[0].0 != path);
        lemma_groups_add_found(gs.drop_first(), path, tags, j - 1);
        assert(gs.drop_first()[j - 1] == gs[j]);
        assert(seq![gs[0]] + gs.drop_first().update(j - 1, (gs[j].0, gs[j].1 + tags)) =~=
        gs.update(j, (gs[j].0, gs[j].1 + tags)));
    }
}

proof fn lemma_groups_add_missing(gs: Seq<EditGroup>, path: Seq<char>, tags: Seq<EditPair>)
    requires
        forall|k: int| 0 <= k < gs.len() ==> (#[trigger] gs[k]).0 != path,
    ensures
        groups_add(gs, path, tags) == gs.push((path, tags)),
    decreases gs.len(),
{
    if gs.len() == 0 {
        assert(seq![(path, tags)] =~= gs.push((path, tags)));
    } else {
        assert(gs[0].0 != path);
        assert(forall|k: int|
            0 <= k < gs.drop_first().len() ==> (#[trigger] gs.drop_first()[k]).0 != path);
        lemma_groups_add_missing(gs.drop_first(), path, tags);
        assert(seq![gs[0]] + gs.drop_first().push((path, tags)) =~= gs.push((path, tags)));
    }
}

/// Folds one finished block into the accumulated groups: rows append to
/// the group of an already-seen path, a fresh path opens a new group.
fn groups_push(
    groups: &mut Vec<(String, Vec<(bool, TagValuePair)>)>,
    path: String,
    tags: Vec<(bool, TagValuePair)>,
)
    ensures
        groups_view(final(groups)@) == groups_add(
            groups_view(old(groups)@),
            path@,
            pairs_view(tags@),
        ),
{
    let ghost gv = groups_view(groups@);
    let n = groups.len();
    let mut j: usize = 0;
    while j < n
        invariant
            groups@ == old(groups)@,
            n == groups@.len(),
            j <= n,
            gv == groups_view(groups@),
            forall|k: int| 0 <= k < j ==> (#[trigger] gv[k]).0 != path@,
        decreases n - j,
    {
        proof {
            assert(gv[j as int] == group_view(groups@[j as int]));
        }
        if str_eq(groups[j].0.as_str(), path.as_str()) {
            let mut g = groups.remove(j);
            let mut moved = tags;
            g.1.append(&mut moved);
            let ghost g2 = g;
            groups.insert(j, g);
            proof {
                assert(groups@ =~= old(groups)@.update(j as int, g2));
                lemma_groups_add_found(gv, path@, pairs_view(tags@), j as int);
                assert(pairs_view(old(groups)@[j as int].1@ + tags@) =~= pairs_view(
                    old(groups)@[j as int].1@,
                ) + pairs_view(tags@));
                assert(group_view(g2) == (gv[j as int].0, gv[j as int].1 + pairs_view(tags@)));
                assert(groups_view(groups@) =~= gv.update(
                    j as int,
                    (gv[j as int].0, gv[j as int].1 + pairs_view(tags@)),
                ));
            }
            return ;
        }
        j += 1;
    }
    let ghost row = (path@, pairs_view(tags@));
    groups.push((path, tags));
    proof {
        lemma_groups_add_missing(gv, groups@.last().0@, pairs_view(groups@.last().1@));
        assert(groups_view(groups@) =~= gv.push(row));
    }
}


proof fn lemma_run_fail(lines: Seq<Seq<char>>, li: int, st: EditState)
    requires
        0 <= li < lines.len(),
        edit_step(st, lines[li]) is None,
        edit_run(lines, edit_init()) == edit_run(lines.skip(li), st),
    ensures
        edit_run(lines, edit_init()) is None,
{
    assert(lines.skip(li)[0] == lines[li]);
    assert(edit_run(lines.skip(li), st) is None);
}

/// Parses a whole edit-representation dump into its `(path, rows)`
/// groups, validating every tag line; nothing is returned unless the
/// whole dump is well formed.
#[verifier::rlimit(100)]
pub fn parse_edit_repr(input: &str) -> (r: Result<
    Vec<(String, Vec<(bool, TagValuePair)>)>,
    TagError,
>)
    ensures
        match r {
            Ok(gs) => parse_edit_spec(input@) == Some(groups_view(gs@)),
            Err(e) => parse_edit_spec(input@) is None && e is EditParse,
        },
{
    let lines = split_lines_exec(input);
    let ghost lv = split_lines(input@);
    let mut inside = false;
    let mut auto = false;
    let mut path: Option<String> = None;
    let mut cur: Vec<(bool, TagValuePair)> = Vec::new();
    let mut groups: Vec<(String, Vec<(bool, TagValuePair)>)> = Vec::new();
    let mut li: usize = 0;
    proof {
        assert(lv.skip(0) =~= lv);
        assert(pairs_view(cur@) =~= Seq::<EditPair>::empty());
        assert(groups_view(groups@) =~= Seq::<EditGroup>::empty());
    }
    while li < lines.len()
        invariant
            lv == split_lines(input@),
            lines@.map_values(|l: String| l@) == lv,
            li <= lv.len(),
            edit_run(lv, edit_init()) == edit_run(
                lv.skip(li as int),
                EditState {
                    inside: inside,
                    auto: auto,
                    path: opt_view(path),
                    cur: pairs_view(cur@),
                    groups: groups_view(groups@),
                },
            ),
        decreases lv.len() - li,
    {
        let ghost st = EditState {
            inside: inside,
            auto: auto,
            path: opt_view(path),
            cur: pairs_view(cur@),
            groups: groups_view(groups@),
        };
        let line = &lines[li];
        let ghost lviews = lv[li as int];
        proof {
            assert(lv[li as int] == lines@[li as int]@);
            assert(lv.skip(li as int)[0] == lv[li as int]);
            assert(lv.skip(li as int).drop_first() =~= lv.skip(li + 1));
        }
        if is_skippable_line_exec(line.as_str()) {
            proof {
                assert(edit_step(st, lviews) == Some(st));
            }
        } else if str_eq(line.as_str(), "--------") {
            if inside {
                inside = false;
                auto = false;
                match path {
                    Some(p) => {
                        let block = cur;
                        cur = Vec::new();
                        path = None;
                        groups_push(&mut groups, p, block);
                    },
                    None => {
                        path = None;
                        cur = Vec::new();
                    },
                }
                proof {
                    assert(pairs_view(cur@) =~= Seq::<EditPair>::empty());
                    let st2 = EditState {
                        inside: inside,
                        auto: auto,
                        path: opt_view(path),
                        cur: pairs_view(cur@),
                        groups: groups_view(groups@),
                    };
                    assert(edit_step(st, lviews) == Some(st2));
                }
            } else {
                inside = true;
                proof {
                    let st2 = EditState {
                        inside: inside,
                        auto: auto,
                        path: opt_view(path),
                        cur: pairs_view(cur@),
                        groups: groups_view(groups@),
                    };
                    assert(st2 == EditState { inside: true, ..st });
                    assert(edit_step(st, lviews) == Some(st2));
                }
            }
        } else if inside && str_eq(line.as_str(), "--AUTO--") {
            auto = true;
            proof {
                let st2 = EditState {
                    inside: inside,
                    auto: auto,
                    path: opt_view(path),
                    cur: pairs_view(cur@),
                    groups: groups_view(groups@),
                };
                assert(st2 == EditState { auto: true, ..st });
                assert(edit_step(st, lviews) == Some(st2));
            }
        } else if inside && path.is_none() {
            path = Some(line.clone());
            proof {
                let st2 = EditState {
                    inside: inside,
                    auto: auto,
                    path: opt_view(path),
                    cur: pairs_view(cur@),
                    groups: groups_view(groups@),
                };
                assert(opt_view(path) == Some(lviews));
                assert(st2 == EditState { path: Some(lviews), ..st });
                assert(edit_step(st, lviews) == Some(st2));
            }
        } else if inside {
            match TagValuePair::parse(line.as_str()) {
                Ok(pair) => {
                    let flagged = (auto, pair);
                    let ghost fv = pair_view(flagged);
                    let ghost cur_old = cur@;
                    cur.push(flagged);
                    proof {
                        assert(pairs_view(cur@) =~= pairs_view(cur_old).push(fv));
                        let q = parse_tag_value_spec(lviews)->0;
                        assert(fv == (st.auto, q));
                        let st2 = EditState {
                            inside: inside,
                            auto: auto,
                            path: opt_view(path),
                            cur: pairs_view(cur@),
                            groups: groups_view(groups@),
                        };
                        assert(st2 == EditState { cur: st.cur.push((st.auto, q)), ..st });
                        assert(edit_step(st, lviews) == Some(st2));
                    }
                },
                Err(_) => {
                    proof {
                        assert(edit_step(st, lviews) is None);
                        lemma_run_fail(lv, li as int, st);
                        assert(parse_edit_spec(input@) is None);
                    }
                    return Err(TagError::EditParse { line: (li as u64) + 1 });
                },
            }
        } else {
            proof {
                assert(edit_step(st, lviews) == Some(st));
            }
        }
        li += 1;
        proof {
            let st2 = EditState {
                inside: inside,
                auto: auto,
                path: opt_view(path),
                cur: pairs_view(cur@),
                groups: groups_view(groups@),
            };
            assert(edit_step(st, lv[li - 1]) == Some(st2));
            assert(edit_run(lv.skip(li - 1), st) == edit_run(lv.skip(li as int), st2));
        }
    }
    proof {
        assert(lines@.map_values(|l: String| l@).len() == lines@.len());
        assert(lv.skip(lv.len() as int) =~= Seq::<Seq<char>>::empty());
        let stf = EditState {
            inside: inside,
            auto: auto,
            path: opt_view(path),
            cur: pairs_view(cur@),
            groups: groups_view(groups@),
        };
        assert(edit_run(Seq::<Seq<char>>::empty(), stf) == Some(stf));
        assert(edit_run(lv, edit_init()) == Some(stf));
    }
    Ok(groups)
}

/// The lines of the given mappings whose automatic flag matches, each as
/// an escaped `tag` or `tag=value` with a newline.
pub open spec fn edit_lines_of(ms: Seq<TagMapping>, flag: bool) -> Seq<char>
    decreases ms.len(),
{
    if ms.len() == 0 {
        Seq::<char>::empty()
    } else {
        (if ms[0].auto == flag {
            escaped_fmt(ms[0].tag_spec(), ms[0].value_spec()) + seq!['\n']
        } else {
            Seq::<char>::empty()
        }) + edit_lines_of(ms.drop_first(), flag)
    }
}

/// Whether any of the mappings is automatic.
pub open spec fn has_auto(ms: Seq<TagMapping>) -> bool {
    exists|i: int| 0 <= i < ms.len() && (#[trigger] ms[i]).auto
}

proof fn lemma_edit_lines_push(p: Seq<TagMapping>, m: TagMapping, flag: bool)
    ensures
        edit_lines_of(p.push(m), flag) == edit_lines_of(p, flag) + (if m.auto == flag {
            escaped_fmt(m.tag_spec(), m.value_spec()) + seq!['\n']
        } else {
            Seq::<char>::empty()
        }),
    decreases p.len(),
{
    let tailm = if m.auto == flag {
        escaped_fmt(m.tag_spec(), m.value_spec()) + seq!['\n']
    } else {
        Seq::<char>::empty()
    };
    if p.len() == 0 {
        assert(p.push(m).drop_first() =~= p);
        assert(p.push(m)[0] == m);
        assert(tailm + Seq::<char>::empty() =~= tailm);
        assert(Seq::<char>::empty() + tailm =~= tailm);
    } else {
        assert(p.push(m).drop_first() =~= p.drop_first().push(m));
        assert(p.push(m)[0] == p[0]);
        lemma_edit_lines_push(p.drop_first(), m, flag);
        let head = if p[0].auto == flag {
            escaped_fmt(p[0].tag_spec(), p[0].value_spec()) + seq!['\n']
        } else {
            Seq::<char>::empty()
        };
        assert(head + (edit_lines_of(p.drop_first(), flag) + tailm) =~= (head + edit_lines_of(
            p.drop_first(),
            flag,
        )) + tailm);
    }
}

/// One block of the dump: a separator, the path, the manual lines, an
/// auto marker when needed, the automatic lines, and a closing separator.
pub open spec fn edit_block_spec(path: Seq<char>, ms: Seq<TagMapping>) -> Seq<char> {
    "\n--------\n"@ + path + "\n"@ + edit_lines_of(ms, false) + (if has_auto(ms) {
        "--AUTO--\n"@
    } else {
        Seq::<char>::empty()
    }) + edit_lines_of(ms, true) + "--------\n"@
}

fn render_lines_of(tags: &Vec<TagMapping>, flag: bool) -> (r: String)
    ensures
        r@ == edit_lines_of(tags@, flag),
{
    let mut out = String::new();
    let n = tags.len();
    let mut i: usize = 0;
    proof {
        assert(tags@.take(0) =~= Seq::<TagMapping>::empty());
    }
    while i < n
        invariant
            n == tags@.len(),
            i <= n,
            out@ == edit_lines_of(tags@.take(i as int), flag),
        decreases n - i,
    {
        let m = &tags[i];
        if m.auto == flag {
            let line = EscapedTagFormatter(m).render();
            out.append(line.as_str());
            out.append("\n");
        }
        i += 1;
        proof {
            reveal_strlit("\n");
            assert(tags@.take(i as int) =~= tags@.take(i - 1).push(tags@[i - 1]));
            lemma_edit_lines_push(tags@.take(i - 1), tags@[i - 1], flag);
            if tags@[i - 1].auto == flag {
                assert("\n"@ =~= seq!['\n']);
                assert(out@ =~= edit_lines_of(tags@.take(i - 1), flag) + (escaped_fmt(
                    tags@[i - 1].tag_spec(),
                    tags@[i - 1].value_spec(),
                ) + seq!['\n']));
            } else {
                assert(out@ =~= edit_lines_of(tags@.take(i - 1), flag) + Seq::<char>::empty());
            }
        }
    }
    proof {
        assert(tags@.take(n as int) =~= tags@);
    }
    out
}

/// Renders one block of the dump for a path and its mappings.
pub fn render_edit_block(path: &str, tags: &Vec<TagMapping>) -> (r: String)
    ensures
        r@ == edit_block_spec(path@, tags@),
{
    let mut out = String::from_str("\n--------\n");
    out.append(path);
    out.append("\n");
    let manual = render_lines_of(tags, false);
    out.append(manual.as_str());
    let mut any_auto = false;
    let mut i: usize = 0;
    while i < tags.len()
        invariant
            i <= tags@.len(),
            any_auto == exists|k: int| 0 <= k < i && (#[trigger] tags@[k]).auto,
        decreases tags@.len() - i,
    {
        if tags[i].auto {
            any_auto = true;
        }
        i += 1;
        proof {
            if !any_auto {
                assert(forall|k: int| 0 <= k < i ==> !(#[trigger] tags@[k]).auto);
            }
        }
    }
    if any_auto {
        out.append("--AUTO--\n");
    }
    let auto_lines = render_lines_of(tags, true);
    out.append(auto_lines.as_str());
    out.append("--------\n");
    proof {
        assert(any_auto == has_auto(tags@));
    }
    out
}

/// The comment header of a dump.
pub open spec fn edit_header_spec() -> Seq<char> {
    "// You can edit this file as you please, but bear in mind to escape double\n// quotes and spaces in tag values (or use double quotes around the value).\n//\n// All tags default to manual tags, however any tags after the \"--AUTO--\"\n// header are marked as autotags.\n"@
}

/// Renders the comment header of a dump.
pub fn render_edit_header() -> (r: String)
    ensures
        r@ == edit_header_spec(),
{
    String::from_str(
        "// You can edit this file as you please, but bear in mind to escape double\n// quotes and spaces in tag values (or use double quotes around the value).\n//\n// All tags default to manual tags, however any tags after the \"--AUTO--\"\n// header are marked as autotags.\n",
    )
}

} // verus!
