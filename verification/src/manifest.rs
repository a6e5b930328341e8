//! Manifest patching: the package-identity line of the build manifest is
//! replaced with one naming the new project, every other line passes through
//! unchanged, and the lines are rejoined with single line feeds.

use vstd::prelude::*;

use crate::name::{is_name_byte, valid_name};

verus! {

/// The byte `'\n'`: it separates the lines of the manifest.
pub const NL: u8 = 10;

/// The byte `'\r'`: one is dropped ahead of a line feed, as in CRLF endings.
pub const CR: u8 = 13;

/// The byte `'"'`.
pub const QUOTE: u8 = 34;

/// The bytes of `name = `, the prefix that marks the package-identity line.
pub open spec fn name_prefix() -> Seq<u8> {
    seq![110u8, 97u8, 109u8, 101u8, 32u8, 61u8, 32u8]
}

/// Whether a line opens with the package-identity prefix.
pub open spec fn has_name_prefix(line: Seq<u8>) -> bool {
    &&& line.len() >= 7
    &&& line[0] == 110
    &&& line[1] == 97
    &&& line[2] == 109
    &&& line[3] == 101
    &&& line[4] == 32
    &&& line[5] == 61
    &&& line[6] == 32
}

/// Index of the first line feed in `s`, or `s.len()` when there is none.
pub open spec fn first_nl(s: Seq<u8>) -> int
    decreases s.len(),
{
    if s.len() == 0 {
        0
    } else if s[0] == NL {
        0
    } else {
        1 + first_nl(s.skip(1))
    }
}

/// A line without one trailing carriage return, if it carried one.
pub open spec fn strip_cr(line: Seq<u8>) -> Seq<u8> {
    if line.len() > 0 && line[line.len() - 1] == CR {
        line.take(line.len() - 1)
    } else {
        line
    }
}

/// The lines of `s`: split at line feeds, a terminated line losing one trailing
/// carriage return; a final line feed closes the last line rather than opening
/// an empty one.
pub open spec fn split_lines(s: Seq<u8>) -> Seq<Seq<u8>>
    decreases s.len(),
{
    if s.len() == 0 {
        Seq::empty()
    } else {
        let i = first_nl(s);
        if 0 <= i && i < s.len() && s[i] == NL {
            seq![strip_cr(s.take(i))] + split_lines(s.skip(i + 1))
        } else {
            seq![s]
        }
    }
}

/// Lines joined with single line feeds, none trailing.
pub open spec fn join_lines(lines: Seq<Seq<u8>>) -> Seq<u8>
    decreases lines.len(),
{
    if lines.len() == 0 {
        Seq::empty()
    } else if lines.len() == 1 {
        lines[0]
    } else {
        lines[0] + seq![NL] + join_lines(lines.skip(1))
    }
}

/// The replacement for a package-identity line: the prefix, then the project
/// name in quotes.
pub open spec fn name_line(name: Seq<u8>) -> Seq<u8> {
    name_prefix() + seq![QUOTE] + name + seq![QUOTE]
}

/// One line after patching: a package-identity line becomes the replacement
/// line, any other line stays as it is.
pub open spec fn patch_line(line: Seq<u8>, name: Seq<u8>) -> Seq<u8> {
    if has_name_prefix(line) {
        name_line(name)
    } else {
        line
    }
}

/// The whole manifest after patching: each line patched, the lines rejoined
/// with line feeds.
pub open spec fn patched_manifest(content: Seq<u8>, name: Seq<u8>) -> Seq<u8> {
    join_lines(split_lines(content).map_values(|line: Seq<u8>| patch_line(line, name)))
}

/// Whether no byte of `l` is a line feed.
pub open spec fn nl_free(l: Seq<u8>) -> bool {
    forall|i: int| 0 <= i < l.len() ==> l[i] != NL
}

/// Whether `l` ends with a carriage return.
pub open spec fn ends_with_cr(l: Seq<u8>) -> bool {
    l.len() > 0 && l[l.len() - 1] == CR
}

/// `first_nl` points at the first line feed: `i` is it if nothing before `i` is
/// one and `i` is one or the end.
proof fn lemma_first_nl_is(s: Seq<u8>, i: int)
    requires
        0 <= i <= s.len(),
        forall|j: int| 0 <= j < i ==> s[j] != NL,
        i < s.len() ==> s[i] == NL,
    ensures
        first_nl(s) == i,
    decreases i,
{
    if s.len() == 0 {
    } else if i == 0 {
    } else {
        assert(s[0] != NL);
        lemma_first_nl_is(s.skip(1), i - 1);
    }
}

/// Splitting `s` whose first line feed stands at `i`: one line up to `i`, then
/// the lines of the rest; or just `s` when no line feed is in it.
proof fn lemma_split_lines_step(s: Seq<u8>, i: int)
    requires
        0 <= i <= s.len(),
        s.len() > 0,
        forall|j: int| 0 <= j < i ==> s[j] != NL,
        i < s.len() ==> s[i] == NL,
    ensures
        i < s.len() ==> split_lines(s) == seq![strip_cr(s.take(i))] + split_lines(s.skip(i + 1)),
        i == s.len() ==> split_lines(s) == seq![s],
{
    lemma_first_nl_is(s, i);
}

/// `first_nl` stays in bounds, points at a line feed when short of the end, and
/// nothing before it is one.
proof fn lemma_first_nl_props(s: Seq<u8>)
    ensures
        0 <= first_nl(s) <= s.len(),
        first_nl(s) < s.len() ==> s[first_nl(s)] == NL,
        forall|j: int| 0 <= j < first_nl(s) ==> s[j] != NL,
    decreases s.len(),
{
    if s.len() == 0 {
    } else if s[0] == NL {
    } else {
        lemma_first_nl_props(s.skip(1));
        assert forall|j: int| 0 <= j < first_nl(s) implies s[j] != NL by {
            if j > 0 {
                assert(s.skip(1)[j - 1] == s[j]);
            }
        }
    }
}

/// No line that `split_lines` yields holds a line feed.
proof fn lemma_split_lines_nl_free(s: Seq<u8>)
    ensures
        forall|k: int| 0 <= k < split_lines(s).len() ==> nl_free(#[trigger] split_lines(s)[k]),
    decreases s.len(),
{
    if s.len() == 0 {
    } else {
        lemma_first_nl_props(s);
        let i = first_nl(s);
        if i < s.len() {
            lemma_split_lines_nl_free(s.skip(i + 1));
            let head = strip_cr(s.take(i));
            assert(nl_free(head)) by {
                assert(forall|j: int| 0 <= j < s.take(i).len() ==> s.take(i)[j] == s[j]);
            }
            assert forall|k: int| 0 <= k < split_lines(s).len() implies nl_free(
                #[trigger] split_lines(s)[k],
            ) by {
                if k == 0 {
                    assert(split_lines(s)[0] == head);
                } else {
                    assert(split_lines(s)[k] == split_lines(s.skip(i + 1))[k - 1]);
                }
            }
        } else {
            assert(nl_free(s));
        }
    }
}

/// Splitting the join of clean lines gives the lines back: none may hold a line
/// feed, none but the last may end with a carriage return, and the last may not
/// be empty.
proof fn lemma_split_join(ls: Seq<Seq<u8>>)
    requires
        forall|k: int| 0 <= k < ls.len() ==> nl_free(#[trigger] ls[k]),
        forall|k: int| 0 <= k < ls.len() - 1 ==> !ends_with_cr(#[trigger] ls[k]),
        ls.len() > 0 ==> ls.last().len() > 0,
    ensures
        split_lines(join_lines(ls)) == ls,
    decreases ls.len(),
{
    if ls.len() == 0 {
    } else if ls.len() == 1 {
        let s = ls[0];
        assert(s.len() > 0);
        assert(nl_free(s));
        lemma_split_lines_step(s, s.len() as int);
        assert(split_lines(join_lines(ls)) =~= ls);
    } else {
        let s = join_lines(ls);
        let head = ls[0];
        let tail_join = join_lines(ls.skip(1));
        let i = head.len() as int;
        assert(s == head + seq![NL] + tail_join);
        assert(forall|j: int| 0 <= j < i ==> s[j] == head[j]);
        assert(s[i] == NL);
        assert(nl_free(head));
        lemma_split_lines_step(s, i);
        assert(s.take(i) =~= head);
        assert(strip_cr(head) == head) by {
            assert(!ends_with_cr(head));
        }
        assert(s.skip(i + 1) =~= tail_join);
        assert forall|k: int| 0 <= k < ls.skip(1).len() implies nl_free(
            #[trigger] ls.skip(1)[k],
        ) by {
            assert(ls.skip(1)[k] == ls[k + 1]);
        }
        assert forall|k: int| 0 <= k < ls.skip(1).len() - 1 implies !ends_with_cr(
            #[trigger] ls.skip(1)[k],
        ) by {
            assert(ls.skip(1)[k] == ls[k + 1]);
        }
        assert(ls.skip(1).last() == ls.last());
        lemma_split_join(ls.skip(1));
        assert(split_lines(s) == seq![head] + ls.skip(1));
        assert(seq![head] + ls.skip(1) =~= ls);
    }
}

/// The replacement line for a well-formed name: free of line feeds, not ending
/// with a carriage return, opening with the package-identity prefix, and left
/// alone by a further patch.
proof fn lemma_name_line_props(name: Seq<u8>)
    requires
        valid_name(name),
    ensures
        nl_free(name_line(name)),
        !ends_with_cr(name_line(name)),
        name_line(name).len() == name.len() + 9,
        has_name_prefix(name_line(name)),
        patch_line(name_line(name), name) == name_line(name),
{
    let l = name_line(name);
    assert(l.len() == name.len() + 9);
    assert forall|i: int| 0 <= i < l.len() implies l[i] != NL by {
        if i < 7 {
            assert(l[i] == name_prefix()[i]);
        } else if i == 7 {
            assert(l[i] == QUOTE);
        } else if i < l.len() - 1 {
            assert(l[i] == name[i - 8]);
            assert(is_name_byte(name[i - 8]));
        } else {
            assert(l[i] == QUOTE);
        }
    }
    assert(l[l.len() - 1] == QUOTE);
    assert(l[0] == 110 && l[1] == 97 && l[2] == 109 && l[3] == 101 && l[4] == 32 && l[5] == 61
        && l[6] == 32);
}

/// Joining one more line appends a line feed and the line, unless it is the
/// first.
proof fn lemma_join_snoc(lines: Seq<Seq<u8>>, l: Seq<u8>)
    ensures
        join_lines(lines.push(l)) == if lines.len() == 0 {
            l
        } else {
            join_lines(lines) + seq![NL] + l
        },
    decreases lines.len(),
{
    if lines.len() == 0 {
        assert(lines.push(l) =~= seq![l]);
    } else {
        lemma_join_snoc(lines.skip(1), l);
        assert(lines.push(l).skip(1) =~= lines.skip(1).push(l));
        assert(lines.push(l)[0] == lines[0]);
        assert(join_lines(lines.push(l)) =~= join_lines(lines) + seq![NL] + l);
    }
}

/// Patching a manifest twice with the same well-formed project name gives the
/// same bytes as patching it once: the package-identity line is replaced, never
/// appended to. The content may not end in an empty unpatched line, and no
/// unpatched line short of the last may end with a carriage return: rejoining
/// with line feeds drops such an ending, so a second pass would read those
/// lines differently.
pub proof fn lemma_patch_idempotent(content: Seq<u8>, name: Seq<u8>)
    requires
        valid_name(name),
        forall|k: int| 0 <= k < split_lines(content).len() - 1 ==> has_name_prefix(
            #[trigger] split_lines(content)[k],
        ) || !ends_with_cr(split_lines(content)[k]),
        split_lines(content).len() > 0 && !has_name_prefix(split_lines(content).last())
            ==> split_lines(content).last().len() > 0,
    ensures
        patched_manifest(patched_manifest(content, name), name) == patched_manifest(
            content,
            name,
        ),
{
    let patched = |line: Seq<u8>| patch_line(line, name);
    let ls = split_lines(content);
    let pls = ls.map_values(patched);
    lemma_split_lines_nl_free(content);
    lemma_name_line_props(name);
    assert forall|k: int| 0 <= k < pls.len() implies nl_free(#[trigger] pls[k]) by {
        assert(pls[k] == patched(ls[k]));
    }
    assert forall|k: int| 0 <= k < pls.len() - 1 implies !ends_with_cr(#[trigger] pls[k]) by {
        assert(pls[k] == patched(ls[k]));
    }
    if pls.len() > 0 {
        assert(pls.last() == patched(ls.last()));
        assert(pls.last().len() > 0);
    }
    lemma_split_join(pls);
    assert(split_lines(patched_manifest(content, name)) == pls);
    assert forall|k: int| 0 <= k < pls.len() implies #[trigger] pls.map_values(patched)[k]
        == pls[k] by {
        assert(pls[k] == patched(ls[k]));
        if has_name_prefix(ls[k]) {
            assert(patched(pls[k]) == name_line(name));
        }
    }
    assert(pls.map_values(patched) =~= pls);
}

/// Patching touches nothing but the package-identity lines: the patched
/// manifest is the join of a line sequence of the same length as the original
/// lines, in which every line without the package-identity prefix stands
/// verbatim at its old place — blank lines and comments among them — and every
/// line with it has become the replacement line.
pub proof fn lemma_patch_preserves_other_lines(content: Seq<u8>, name: Seq<u8>)
    ensures
        ({
            let before = split_lines(content);
            let after = before.map_values(|line: Seq<u8>| patch_line(line, name));
            &&& patched_manifest(content, name) == join_lines(after)
            &&& after.len() == before.len()
            &&& forall|k: int|
                0 <= k < before.len() && !has_name_prefix(#[trigger] before[k]) ==> after[k]
                    == before[k]
            &&& forall|k: int|
                0 <= k < before.len() && has_name_prefix(#[trigger] before[k]) ==> after[k]
                    == name_line(name)
        }),
{
    let before = split_lines(content);
    let after = before.map_values(|line: Seq<u8>| patch_line(line, name));
    assert forall|k: int| 0 <= k < before.len() implies #[trigger] after[k] == patch_line(
        before[k],
        name,
    ) by {}
}

/// End of the line that starts at `start`: the next line feed, or the end of
/// the content.
fn find_line_end(content: &[u8], start: usize) -> (end: usize)
    requires
        start <= content@.len(),
    ensures
        start <= end <= content@.len(),
        forall|j: int| start <= j < end ==> content@[j] != NL,
        end < content@.len() ==> content@[end as int] == NL,
{
    let mut end: usize = start;
    while end < content.len() && content[end] != NL
        invariant
            start <= end <= content@.len(),
            forall|j: int| start <= j < end ==> content@[j] != NL,
        decreases content@.len() - end,
    {
        end += 1;
    }
    end
}

/// Whether the bytes of `content` from `start` to `end` open with the
/// package-identity prefix.
fn range_has_name_prefix(content: &[u8], start: usize, end: usize) -> (r: bool)
    requires
        start <= end <= content@.len(),
    ensures
        r == has_name_prefix(content@.subrange(start as int, end as int)),
{
    let ghost line = content@.subrange(start as int, end as int);
    if end - start < 7 {
        return false;
    }
    let r = content[start] == 110 && content[start + 1] == 97 && content[start + 2] == 109
        && content[start + 3] == 101 && content[start + 4] == 32 && content[start + 5] == 61
        && content[start + 6] == 32;
    proof {
        assert(line[0] == content@[start as int]);
        assert(line[1] == content@[start as int + 1]);
        assert(line[2] == content@[start as int + 2]);
        assert(line[3] == content@[start as int + 3]);
        assert(line[4] == content@[start as int + 4]);
        assert(line[5] == content@[start as int + 5]);
        assert(line[6] == content@[start as int + 6]);
    }
    r
}

/// Append the bytes of `content` from `start` to `end` to `out`.
fn push_range(out: &mut Vec<u8>, content: &[u8], start: usize, end: usize)
    requires
        start <= end <= content@.len(),
    ensures
        final(out)@ == old(out)@ + content@.subrange(start as int, end as int),
{
    let mut j: usize = start;
    proof {
        assert(out@ =~= old(out)@ + content@.subrange(start as int, start as int));
    }
    while j < end
        invariant
            start <= j <= end <= content@.len(),
            out@ == old(out)@ + content@.subrange(start as int, j as int),
        decreases end - j,
    {
        out.push(content[j]);
        proof {
            assert(content@.subrange(start as int, j as int + 1) =~= content@.subrange(
                start as int,
                j as int,
            ).push(content@[j as int]));
            assert(out@ =~= old(out)@ + content@.subrange(start as int, j as int + 1));
        }
        j += 1;
    }
}

/// Append the replacement package-identity line for `project_name` to `out`.
fn push_name_line(out: &mut Vec<u8>, project_name: &[u8])
    ensures
        final(out)@ == old(out)@ + name_line(project_name@),
{
    out.push(110);
    out.push(97);
    out.push(109);
    out.push(101);
    out.push(32);
    out.push(61);
    out.push(32);
    out.push(QUOTE);
    push_range(out, project_name, 0, project_name.len());
    out.push(QUOTE);
    proof {
        assert(project_name@.subrange(0, project_name@.len() as int) =~= project_name@);
        assert(out@ =~= old(out)@ + name_line(project_name@));
    }
}

/// The manifest `content` with every package-identity line replaced by one
/// naming `project_name`, all other lines kept in order, the lines rejoined
/// with single line feeds.
pub fn patch_manifest(content: &[u8], project_name: &[u8]) -> (out: Vec<u8>)
    ensures
        out@ == patched_manifest(content@, project_name@),
{
    let mut out: Vec<u8> = Vec::new();
    let mut pos: usize = 0;
    let mut first: bool = true;
    let ghost mut done: Seq<Seq<u8>> = Seq::empty();
    proof {
        assert(content@.subrange(0, content@.len() as int) =~= content@);
        assert(split_lines(content@) =~= done + split_lines(content@));
        assert(done.map_values(|line: Seq<u8>| patch_line(line, project_name@)) =~= Seq::<
            Seq<u8>,
        >::empty());
    }
    while pos < content.len()
        invariant
            pos <= content@.len(),
            split_lines(content@) == done + split_lines(
                content@.subrange(pos as int, content@.len() as int),
            ),
            out@ == join_lines(done.map_values(|line: Seq<u8>| patch_line(line, project_name@))),
            first <==> done.len() == 0,
        decreases content@.len() - pos,
    {
        let ghost rest = content@.subrange(pos as int, content@.len() as int);
        let end = find_line_end(content, pos);
        let terminated = end < content.len();
        let line_end = if terminated && end > pos && content[end - 1] == CR {
            end - 1
        } else {
            end
        };
        let ghost line = content@.subrange(pos as int, line_end as int);
        proof {
            let i = end - pos;
            assert(forall|j: int| 0 <= j < i ==> rest[j] == content@[pos + j]);
            lemma_split_lines_step(rest, i);
            if terminated {
                assert(rest[i] == content@[end as int]);
                assert(strip_cr(rest.take(i)) =~= line) by {
                    assert(rest.take(i) =~= content@.subrange(pos as int, end as int));
                    if end > pos && content@[end as int - 1] == CR {
                        assert(rest.take(i).take(i - 1) =~= content@.subrange(
                            pos as int,
                            end as int - 1,
                        ));
                    }
                }
                assert(rest.skip(i + 1) =~= content@.subrange(
                    end as int + 1,
                    content@.len() as int,
                ));
                assert(split_lines(rest) == seq![line] + split_lines(
                    content@.subrange(end as int + 1, content@.len() as int),
                ));
            } else {
                assert(rest =~= line);
                assert(split_lines(rest) == seq![line]);
                assert(content@.subrange(end as int, content@.len() as int).len() == 0);
            }
        }
        if !first {
            out.push(NL);
        }
        let ghost before_line = out@;
        if range_has_name_prefix(content, pos, line_end) {
            push_name_line(&mut out, project_name);
        } else {
            push_range(&mut out, content, pos, line_end);
        }
        proof {
            let patched = |l: Seq<u8>| patch_line(l, project_name@);
            assert(out@ == before_line + patched(line));
            lemma_join_snoc(done.map_values(patched), patched(line));
            assert(done.push(line).map_values(patched) =~= done.map_values(patched).push(
                patched(line),
            ));
            if done.len() == 0 {
                assert(out@ =~= join_lines(done.push(line).map_values(patched)));
            } else {
                assert(out@ =~= join_lines(done.map_values(patched)) + seq![NL] + patched(line));
                assert(out@ =~= join_lines(done.push(line).map_values(patched)));
            }
            done = done.push(line);
            assert(split_lines(content@) == done + split_lines(
                content@.subrange(
                    if terminated {
                        end as int + 1
                    } else {
                        end as int
                    },
                    content@.len() as int,
                ),
            )) by {
                if terminated {
                    assert(done + split_lines(
                        content@.subrange(end as int + 1, content@.len() as int),
                    ) =~= (done.drop_last()) + (seq![line] + split_lines(
                        content@.subrange(end as int + 1, content@.len() as int),
                    )));
                } else {
                    assert(done + split_lines(
                        content@.subrange(end as int, content@.len() as int),
                    ) =~= (done.drop_last()) + seq![line]);
                }
            }
        }
        pos = if terminated {
            end + 1
        } else {
            end
        };
        first = false;
    }
    proof {
        assert(content@.subrange(pos as int, content@.len() as int).len() == 0);
        assert(split_lines(content@) =~= done);
    }
    out
}

} // verus!
