//! Paths as bytes: components between slashes, and names compared without
//! regard to ASCII case.

use vstd::prelude::*;

verus! {

/// The byte `/`, which separates the components of a path.
pub const SEPARATOR: u8 = 0x2F;

/// The byte `.`; alone it names the directory itself, doubled its parent.
pub const DOT: u8 = 0x2E;

/// `byte` with an ASCII upper-case letter replaced by its lower-case form.
pub open spec fn lower(byte: u8) -> u8 {
    if 0x41 <= byte <= 0x5A {
        (byte + 0x20) as u8
    } else {
        byte
    }
}

/// Whether two names are equal up to the case of their ASCII letters.
pub open spec fn names_match(a: Seq<u8>, b: Seq<u8>) -> bool {
    &&& a.len() == b.len()
    &&& forall|i: int| 0 <= i < a.len() ==> lower(#[trigger] a[i]) == lower(b[i])
}

/// `name` with each ASCII upper-case letter replaced by its lower-case form.
pub open spec fn lowered(name: Seq<u8>) -> Seq<u8> {
    name.map_values(|byte: u8| lower(byte))
}

/// Two names match exactly when their lower-case forms are equal; so the
/// case of the ASCII letters of either name does not matter, and every name
/// matches its own lower-case form.
pub proof fn lemma_names_match_by_lower_case(a: Seq<u8>, b: Seq<u8>)
    ensures
        names_match(a, b) <==> lowered(a) == lowered(b),
        names_match(a, lowered(a)),
{
    if names_match(a, b) {
        assert(lowered(a) =~= lowered(b));
    }
    if lowered(a) == lowered(b) {
        assert(a.len() == lowered(a).len());
        assert(b.len() == lowered(b).len());
        assert forall|i: int| 0 <= i < a.len() implies lower(#[trigger] a[i]) == lower(b[i]) by {
            assert(lowered(a)[i] == lower(a[i]));
            assert(lowered(b)[i] == lower(b[i]));
        }
    }
    assert forall|i: int| 0 <= i < a.len() implies lower(#[trigger] a[i]) == lower(
        lowered(a)[i],
    ) by {
        assert(lowered(a)[i] == lower(a[i]));
    }
}

/// The number of bytes at the start of `path` before its first separator.
pub open spec fn run_length(path: Seq<u8>) -> nat
    decreases path.len(),
{
    if path.len() == 0 || path[0] == SEPARATOR {
        0
    } else {
        1 + run_length(path.skip(1))
    }
}

/// The components of `path`: its maximal runs of bytes other than the
/// separator, from left to right. Neither a leading or trailing separator
/// nor a repeated one gives rise to an empty component.
pub open spec fn components(path: Seq<u8>) -> Seq<Seq<u8>>
    decreases path.len(),
{
    if path.len() == 0 {
        Seq::empty()
    } else if path[0] == SEPARATOR {
        components(path.skip(1))
    } else {
        let run = run_length(path) as int;
        proof {
            lemma_run_length_bound(path);
        }
        seq![path.take(run)] + components(path.skip(run))
    }
}

/// Whether `path` starts at the root directory: with a separator.
pub open spec fn is_absolute(path: Seq<u8>) -> bool {
    path.len() > 0 && path[0] == SEPARATOR
}

/// The position of the last separator in `path`, if it has one.
pub open spec fn last_separator(path: Seq<u8>) -> Option<int>
    decreases path.len(),
{
    if path.len() == 0 {
        None
    } else if path.last() == SEPARATOR {
        Some(path.len() - 1)
    } else {
        last_separator(path.drop_last())
    }
}

/// The part of `path` that names the containing directory: what stands
/// before the last separator. Where that separator is the leading one, it
/// is the separator itself, which names the root directory; where there is
/// no separator, it is empty.
pub open spec fn directory_part(path: Seq<u8>) -> Seq<u8> {
    match last_separator(path) {
        Some(at) => if at == 0 {
            path.take(1)
        } else {
            path.take(at)
        },
        None => Seq::empty(),
    }
}

/// The part of `path` that names the leaf: what stands after the last
/// separator, and the whole path where there is no separator.
pub open spec fn leaf_part(path: Seq<u8>) -> Seq<u8> {
    match last_separator(path) {
        Some(at) => path.skip(at + 1),
        None => path,
    }
}

/// The run at the start of a path is never longer than the path, and not
/// empty where the path starts with a byte other than the separator.
pub proof fn lemma_run_length_bound(path: Seq<u8>)
    ensures
        run_length(path) <= path.len(),
        path.len() > 0 && path[0] != SEPARATOR ==> run_length(path) > 0,
    decreases path.len(),
{
    if path.len() > 0 && path[0] != SEPARATOR {
        lemma_run_length_bound(path.skip(1));
    }
}

/// A stretch of bytes without a separator, ended by a separator or by the
/// end of the path, is the run at the start of the path.
proof fn lemma_run_length_is(path: Seq<u8>, end: int)
    requires
        0 <= end <= path.len(),
        forall|i: int| 0 <= i < end ==> path[i] != SEPARATOR,
        end == path.len() || path[end] == SEPARATOR,
    ensures
        run_length(path) == end,
    decreases end,
{
    if end > 0 {
        let rest = path.skip(1);
        assert forall|i: int| 0 <= i < end - 1 implies rest[i] != SEPARATOR by {
            assert(rest[i] == path[i + 1]);
        }
        lemma_run_length_is(rest, end - 1);
    }
}

/// Separators at the start of a path contribute no component.
proof fn lemma_skip_separators(path: Seq<u8>, count: int)
    requires
        0 <= count <= path.len(),
        forall|i: int| 0 <= i < count ==> path[i] == SEPARATOR,
    ensures
        components(path) == components(path.skip(count)),
    decreases count,
{
    if count == 0 {
        assert(path.skip(0) =~= path);
    } else {
        let rest = path.skip(1);
        assert forall|i: int| 0 <= i < count - 1 implies rest[i] == SEPARATOR by {
            assert(rest[i] == path[i + 1]);
        }
        lemma_skip_separators(rest, count - 1);
        assert(rest.skip(count - 1) =~= path.skip(count));
    }
}

/// The components of a path, found one at a time: after any separators
/// from `from` on, the bytes from `start` to `end` are the next component,
/// and the rest of the components are those found from `end` on.
pub proof fn lemma_next_component(path: Seq<u8>, from: int, start: int, end: int)
    requires
        0 <= from <= start < end <= path.len(),
        forall|i: int| from <= i < start ==> path[i] == SEPARATOR,
        forall|i: int| start <= i < end ==> path[i] != SEPARATOR,
        end == path.len() || path[end] == SEPARATOR,
    ensures
        components(path.skip(from)) == seq![path.subrange(start, end)] + components(
            path.skip(end),
        ),
{
    let tail = path.skip(from);
    lemma_skip_separators(tail, start - from);
    assert(tail.skip(start - from) =~= path.skip(start));
    let rest = path.skip(start);
    lemma_run_length_is(rest, end - start);
    assert(rest.take(end - start) =~= path.subrange(start, end));
    assert(rest.skip(end - start) =~= path.skip(end));
}

/// A path made of separators alone has no component.
pub proof fn lemma_no_component(path: Seq<u8>, from: int)
    requires
        0 <= from <= path.len(),
        forall|i: int| from <= i < path.len() ==> path[i] == SEPARATOR,
    ensures
        components(path.skip(from)).len() == 0,
{
    let tail = path.skip(from);
    lemma_skip_separators(tail, tail.len() as int);
    assert(tail.skip(tail.len() as int) =~= Seq::<u8>::empty());
}

/// Converts an ASCII upper-case letter to lower case, and leaves any other
/// byte as it is.
pub fn to_lower(byte: u8) -> (folded: u8)
    ensures
        folded == lower(byte),
{
    if 0x41 <= byte && byte <= 0x5A {
        byte + 0x20
    } else {
        byte
    }
}

/// Compares two names without regard to the case of their ASCII letters.
pub fn eq_ignore_case(a: &[u8], b: &[u8]) -> (equal: bool)
    ensures
        equal == names_match(a@, b@),
{
    if a.len() != b.len() {
        return false;
    }
    let mut i: usize = 0;
    while i < a.len()
        invariant
            i <= a@.len(),
            a@.len() == b@.len(),
            forall|j: int| 0 <= j < i ==> lower(#[trigger] a@[j]) == lower(b@[j]),
        decreases a@.len() - i,
    {
        if to_lower(a[i]) != to_lower(b[i]) {
            return false;
        }
        i = i + 1;
    }
    true
}

/// Finds the first component of `path` at or after position `from`, and
/// returns the positions at which it starts and ends.
pub fn next_component(path: &[u8], from: usize) -> (found: Option<(usize, usize)>)
    requires
        from <= path@.len(),
    ensures
        match found {
            Some((start, end)) => {
                &&& from <= start < end <= path@.len()
                &&& forall|i: int| from <= i < start ==> path@[i] == SEPARATOR
                &&& forall|i: int| start <= i < end ==> path@[i] != SEPARATOR
                &&& end == path@.len() || path@[end as int] == SEPARATOR
                &&& components(path@.skip(from as int)) == seq![
                    path@.subrange(start as int, end as int),
                ] + components(path@.skip(end as int))
            },
            None => {
                &&& forall|i: int| from <= i < path@.len() ==> path@[i] == SEPARATOR
                &&& components(path@.skip(from as int)).len() == 0
            },
        },
{
    let mut start: usize = from;
    while start < path.len() && path[start] == SEPARATOR
        invariant
            from <= start <= path@.len(),
            forall|i: int| from <= i < start ==> path@[i] == SEPARATOR,
        decreases path@.len() - start,
    {
        start = start + 1;
    }
    if start == path.len() {
        proof {
            lemma_no_component(path@, from as int);
        }
        return None;
    }
    let mut end: usize = start + 1;
    while end < path.len() && path[end] != SEPARATOR
        invariant
            start < end <= path@.len(),
            forall|i: int| start <= i < end ==> path@[i] != SEPARATOR,
        decreases path@.len() - end,
    {
        end = end + 1;
    }
    proof {
        lemma_next_component(path@, from as int, start as int, end as int);
    }
    Some((start, end))
}

/// Finds the last separator in `path`.
pub fn find_last_separator(path: &[u8]) -> (found: Option<usize>)
    ensures
        match found {
            Some(at) => {
                &&& at < path@.len()
                &&& path@[at as int] == SEPARATOR
                &&& forall|i: int| at < i < path@.len() ==> path@[i] != SEPARATOR
                &&& last_separator(path@) == Some(at as int)
            },
            None => {
                &&& forall|i: int| 0 <= i < path@.len() ==> path@[i] != SEPARATOR
                &&& last_separator(path@) is None
            },
        },
{
    let mut at: usize = path.len();
    assert(path@.take(at as int) =~= path@);
    while at > 0
        invariant
            at <= path@.len(),
            forall|i: int| at <= i < path@.len() ==> path@[i] != SEPARATOR,
            last_separator(path@) == last_separator(path@.take(at as int)),
        decreases at,
    {
        assert(path@.take(at as int).drop_last() =~= path@.take(at as int - 1));
        if path[at - 1] == SEPARATOR {
            return Some(at - 1);
        }
        at = at - 1;
    }
    assert(path@.take(0).len() == 0);
    None
}

} // verus!
