//! Finding the file that a static route serves. The request path is resolved
//! segment by segment below the route's directory; a path that would climb
//! above the directory is refused.

use crate::text::chars_of;
use vstd::prelude::*;
use vstd::string::*;

verus! {

/// Both kinds of slash separate the segments of a path.
pub open spec fn is_separator(c: char) -> bool {
    c == '/' || c == '\\'
}

/// The segment `.`: the place itself.
pub open spec fn dot() -> Seq<char> {
    seq!['.']
}

/// The segment `..`: the place above.
pub open spec fn dot_dot() -> Seq<char> {
    seq!['.', '.']
}

/// The state of a walk along a path: the segments that lead to the place
/// reached, the segment being read, and whether the walk has tried to climb
/// above its starting place.
pub struct Walk {
    pub stack: Seq<Seq<char>>,
    pub current: Seq<char>,
    pub escaped: bool,
}

/// The walk at the end of a segment: an empty segment and `.` stay in place,
/// `..` goes up, and leaves the starting place where there is nothing above;
/// any other segment goes down.
pub open spec fn close_segment(w: Walk) -> Walk {
    if w.escaped {
        Walk { stack: w.stack, current: Seq::empty(), escaped: true }
    } else if w.current.len() == 0 || w.current == dot() {
        Walk { stack: w.stack, current: Seq::empty(), escaped: false }
    } else if w.current == dot_dot() {
        if w.stack.len() == 0 {
            Walk { stack: w.stack, current: Seq::empty(), escaped: true }
        } else {
            Walk { stack: w.stack.drop_last(), current: Seq::empty(), escaped: false }
        }
    } else {
        Walk { stack: w.stack.push(w.current), current: Seq::empty(), escaped: false }
    }
}

/// The walk along `path`, before its last segment is closed.
pub open spec fn walk(path: Seq<char>) -> Walk
    decreases path.len(),
{
    if path.len() == 0 {
        Walk { stack: Seq::empty(), current: Seq::empty(), escaped: false }
    } else {
        let w = walk(path.drop_last());
        if is_separator(path.last()) {
            close_segment(w)
        } else {
            Walk { stack: w.stack, current: w.current.push(path.last()), escaped: w.escaped }
        }
    }
}

/// The segments that lead from the starting place to the place that `path`
/// names; `None` where the path climbs above the starting place.
pub open spec fn resolved(path: Seq<char>) -> Option<Seq<Seq<char>>> {
    let w = close_segment(walk(path));
    if w.escaped {
        None
    } else {
        Some(w.stack)
    }
}

/// `root` followed by the segments, each after a slash.
pub open spec fn join_under(root: Seq<char>, segments: Seq<Seq<char>>) -> Seq<char>
    decreases segments.len(),
{
    if segments.len() == 0 {
        root
    } else {
        join_under(root, segments.drop_last()) + seq!['/'] + segments.last()
    }
}

/// A segment that names a file or a directory: not empty, neither `.` nor
/// `..`, and without a separator in it.
pub open spec fn is_name(segment: Seq<char>) -> bool {
    &&& segment.len() > 0
    &&& segment != dot()
    &&& segment != dot_dot()
    &&& forall|i: int| 0 <= i < segment.len() ==> !is_separator(#[trigger] segment[i])
}

spec fn segments_of(cs: Seq<char>, marks: Seq<(usize, usize)>) -> Seq<Seq<char>> {
    Seq::new(marks.len(), |k: int| cs.subrange(marks[k].0 as int, marks[k].1 as int))
}

spec fn marks_ok(cs: Seq<char>, marks: Seq<(usize, usize)>) -> bool {
    forall|k: int| 0 <= k < marks.len() ==> (#[trigger] marks[k]).0 <= marks[k].1 <= cs.len()
}

fn close(cs: &Vec<char>, marks: &mut Vec<(usize, usize)>, from: usize, to: usize, escaped: bool) -> (now_escaped:
    bool)
    requires
        from <= to <= cs@.len(),
        marks_ok(cs@, old(marks)@),
    ensures
        marks_ok(cs@, final(marks)@),
        close_segment(
            Walk {
                stack: segments_of(cs@, old(marks)@),
                current: cs@.subrange(from as int, to as int),
                escaped,
            },
        ) == (Walk {
            stack: segments_of(cs@, final(marks)@),
            current: Seq::empty(),
            escaped: now_escaped,
        }),
{
    let ghost current = cs@.subrange(from as int, to as int);
    let len = to - from;
    if escaped {
        return true;
    }
    if len == 0 {
        return false;
    }
    if len == 1 && cs[from] == '.' {
        proof {
            assert(current =~= dot());
        }
        return false;
    }
    if len == 2 && cs[from] == '.' && cs[from + 1] == '.' {
        proof {
            assert(current =~= dot_dot());
        }
        if marks.len() == 0 {
            return true;
        }
        marks.pop();
        proof {
            assert(segments_of(cs@, marks@) =~= segments_of(cs@, old(marks)@).drop_last());
        }
        return false;
    }
    proof {
        assert(dot().len() == 1 && dot()[0] == '.');
    }
    marks.push((from, to));
    proof {
        assert(segments_of(cs@, marks@) =~= segments_of(cs@, old(marks)@).push(current));
    }
    false
}

/// The file below `root` that the path `relative` names: the root followed by
/// the segments of the resolved path, each after a slash. `None` where the
/// path would leave the root.
pub fn resolve_static_path(root: &str, relative: &str) -> (file: Option<String>)
    ensures
        match file {
            Some(f) => resolved(relative@) is Some && f@ == join_under(
                root@,
                resolved(relative@)->0,
            ),
            None => resolved(relative@) is None,
        },
{
    let cs = chars_of(relative);
    let n = cs.len();
    let mut marks: Vec<(usize, usize)> = Vec::new();
    let mut from: usize = 0;
    let mut escaped = false;
    let mut i: usize = 0;
    proof {
        assert(segments_of(cs@, marks@) =~= Seq::<Seq<char>>::empty());
        assert(cs@.subrange(0, 0) =~= Seq::<char>::empty());
    }
    while i < n
        invariant
            cs@ == relative@,
            n == cs@.len(),
            from <= i <= n,
            marks_ok(cs@, marks@),
            walk(cs@.take(i as int)) == (Walk {
                stack: segments_of(cs@, marks@),
                current: cs@.subrange(from as int, i as int),
                escaped,
            }),
        decreases n - i,
    {
        proof {
            assert(cs@.take(i as int + 1).drop_last() =~= cs@.take(i as int));
        }
        let c = cs[i];
        if c == '/' || c == '\\' {
            escaped = close(&cs, &mut marks, from, i, escaped);
            from = i + 1;
            proof {
                assert(cs@.subrange(from as int, i as int + 1) =~= Seq::<char>::empty());
            }
        } else {
            proof {
                assert(cs@.subrange(from as int, i as int + 1) =~= cs@.subrange(
                    from as int,
                    i as int,
                ).push(c));
            }
        }
        i += 1;
    }
    proof {
        assert(cs@.take(n as int) =~= cs@);
    }
    let escaped = close(&cs, &mut marks, from, n, escaped);
    if escaped {
        return None;
    }
    let mut out = String::from_str(root);
    let mut k: usize = 0;
    while k < marks.len()
        invariant
            cs@ == relative@,
            marks_ok(cs@, marks@),
            k <= marks.len(),
            out@ == join_under(root@, segments_of(cs@, marks@).take(k as int)),
        decreases marks.len() - k,
    {
        let (a, b) = marks[k];
        proof {
            reveal_strlit("/");
            let segs = segments_of(cs@, marks@);
            assert(segs.take(k as int + 1).drop_last() =~= segs.take(k as int));
        }
        out.append("/");
        out.append(relative.substring_char(a, b));
        k += 1;
    }
    proof {
        let segs = segments_of(cs@, marks@);
        assert(segs.take(segs.len() as int) =~= segs);
    }
    Some(out)
}

/// Along any path the walk keeps to names: every segment on its way names a
/// file or a directory, and the segment being read holds no separator.
pub proof fn lemma_walk_keeps_to_names(path: Seq<char>)
    ensures
        forall|k: int| 0 <= k < walk(path).stack.len() ==> is_name(#[trigger] walk(path).stack[k]),
        forall|i: int|
            0 <= i < walk(path).current.len() ==> !is_separator(#[trigger] walk(path).current[i]),
    decreases path.len(),
{
    if path.len() > 0 {
        lemma_walk_keeps_to_names(path.drop_last());
        let w = walk(path.drop_last());
        let after = walk(path);
        assert forall|k: int| 0 <= k < after.stack.len() implies is_name(#[trigger] after.stack[k]) by {}
    }
}

/// A resolved path stays within the root: it is made of names only, so that
/// no step of it leads up or away.
pub proof fn lemma_resolved_stays_inside(path: Seq<char>)
    ensures
        resolved(path) matches Some(segments) ==> forall|k: int|
            0 <= k < segments.len() ==> is_name(#[trigger] segments[k]),
{
    lemma_walk_keeps_to_names(path);
    let w = walk(path);
    let after = close_segment(w);
    assert forall|k: int| 0 <= k < after.stack.len() implies is_name(#[trigger] after.stack[k]) by {}
}

} // verus!
