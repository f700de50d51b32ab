//! Which paths lie within a directory, by their components.

use vstd::prelude::*;
use vstd::string::*;
use vstd::utf8::encode_utf8;
use vstd::utf8::encode_utf8_valid_utf8;
use vstd::utf8::is_ascii_chars;
use vstd::utf8::is_ascii_chars_encode_utf8;
use vstd::utf8::is_char_boundary;
use vstd::utf8::is_char_boundary_iff_is_leading_byte;
use vstd::utf8::is_leading_byte_width_1;
use vstd::utf8::utf8_byte_ranges_bitwise;
use vstd::utf8::valid_utf8;

verus! {

/// The byte that separates the components of a path, and that an absolute path
/// begins with.
pub const SEPARATOR: u8 = 0x2f;

/// The byte that names a directory itself and, twice, its parent directory.
pub const DOT: u8 = 0x2e;

/// An absolute path.
pub open spec fn is_absolute(path: Seq<u8>) -> bool {
    path.len() > 0 && path[0] == SEPARATOR
}

/// How long the first component of a path is.
pub open spec fn first_len(path: Seq<u8>) -> nat
    decreases path.len(),
{
    if path.len() == 0 || path[0] == SEPARATOR {
        0
    } else {
        1 + first_len(path.drop_first())
    }
}

/// The components of a path: what is between its separators.
pub open spec fn components(path: Seq<u8>) -> Seq<Seq<u8>>
    decreases path.len(),
{
    let n = first_len(path) as int;
    if n >= path.len() {
        seq![path]
    } else {
        seq![path.take(n)] + components(path.skip(n + 1))
    }
}

/// A component that names the parent directory.
pub open spec fn is_parent(component: Seq<u8>) -> bool {
    component == seq![DOT, DOT]
}

/// A component that leads to another directory: not one of nothing between two
/// separators, and not the name of the directory itself.
pub open spec fn is_step(component: Seq<u8>) -> bool {
    component.len() > 0 && component != seq![DOT]
}

/// The components of a path that lead to another directory.
pub open spec fn steps(path: Seq<u8>) -> Seq<Seq<u8>> {
    components(path).filter(|component: Seq<u8>| is_step(component))
}

/// How far below its start these components lead.
pub open spec fn depth(steps: Seq<Seq<u8>>) -> int
    decreases steps.len(),
{
    if steps.len() == 0 {
        0
    } else if is_parent(steps.last()) {
        depth(steps.drop_last()) - 1
    } else {
        depth(steps.drop_last()) + 1
    }
}

/// None of these components leads above the start.
pub open spec fn keep_depth(steps: Seq<Seq<u8>>) -> bool {
    forall|n: int| 0 <= n <= steps.len() ==> #[trigger] depth(steps.take(n)) >= 0
}

/// A path that nowhere leads above the directory that it starts from.
pub open spec fn never_leaves(path: Seq<u8>) -> bool {
    keep_depth(steps(path))
}

/// The path is that of the directory, or lies below it: it goes on from there,
/// and nowhere leads above it again.
pub open spec fn stays_within(base: Seq<u8>, path: Seq<u8>) -> bool {
    &&& is_absolute(path) == is_absolute(base)
    &&& steps(base).is_prefix_of(steps(path))
    &&& keep_depth(steps(path).skip(steps(base).len() as int))
}

/// A component that can be looked for below a directory: neither nothing nor
/// the name of the parent directory.
pub open spec fn is_name(component: Seq<u8>) -> bool {
    component.len() > 0 && !is_parent(component)
}

/// The names among the components, with a separator between them.
pub open spec fn rejoined(components: Seq<Seq<u8>>) -> Seq<u8>
    decreases components.len(),
{
    if components.len() == 0 {
        Seq::empty()
    } else {
        with_component(rejoined(components.drop_last()), components.last())
    }
}

/// A path with one component more, if that is a name.
pub open spec fn with_component(path: Seq<u8>, component: Seq<u8>) -> Seq<u8> {
    if !is_name(component) {
        path
    } else if path.len() == 0 {
        component
    } else {
        path.push(SEPARATOR) + component
    }
}

/// A path without its root and without the components that name a parent
/// directory.
pub open spec fn tamed(path: Seq<u8>) -> Seq<u8> {
    rejoined(components(path))
}

/// Whether a path nowhere leads above the directory that it starts from.
pub fn check_never_leaves(path: &[u8]) -> (never: bool)
    ensures
        never == never_leaves(path@),
{
    let steps: Vec<&[u8]> = split_steps(path);
    assert(views(steps@).skip(0) =~= views(steps@));
    check_depth(&steps, 0)
}

/// Whether a path is that of the directory or lies below it.
pub fn check_stays_within(base: &[u8], path: &[u8]) -> (within: bool)
    ensures
        within == stays_within(base@, path@),
{
    let from_root: bool = base.len() > 0 && base[0] == SEPARATOR;
    let absolute: bool = path.len() > 0 && path[0] == SEPARATOR;
    if from_root != absolute {
        return false;
    }
    let outer: Vec<&[u8]> = split_steps(base);
    let inner: Vec<&[u8]> = split_steps(path);
    let len: usize = outer.len();
    if inner.len() < len {
        return false;
    }
    for i in 0..len
        invariant
            len == outer@.len(),
            len <= inner@.len(),
            views(outer@) == steps(base@),
            views(inner@) == steps(path@),
            forall|j: int| 0 <= j < i ==> #[trigger] steps(base@)[j] == steps(path@)[j],
    {
        assert(views(outer@)[i as int] == outer@[i as int]@);
        assert(views(inner@)[i as int] == inner@[i as int]@);
        if !are_same(outer[i], inner[i]) {
            return false;
        }
    }
    assert(steps(base@) =~= steps(path@).subrange(0, len as int));
    check_depth(&inner, len)
}

/// The bytes of each of these slices.
spec fn views(slices: Seq<&[u8]>) -> Seq<Seq<u8>> {
    slices.map_values(|slice: &[u8]| slice@)
}

/// The components of a path that lead to another directory.
fn split_steps<'a>(path: &'a [u8]) -> (found: Vec<&'a [u8]>)
    ensures
        views(found@) == steps(path@),
{
    let mut rest: &'a [u8] = path;
    let mut found: Vec<&'a [u8]> = Vec::new();
    assert(views(found@) + steps(rest@) =~= steps(path@));
    loop
        invariant
            views(found@) + steps(rest@) == steps(path@),
        decreases rest@.len(),
    {
        let len: usize = rest.len();
        let n: usize = find_separator(rest);
        let component: &'a [u8] = vstd::slice::slice_subrange(rest, 0, n);
        let ghost before = found@;
        proof {
            lemma_first_step(rest@);
            assert(component@ =~= rest@.take(n as int));
        }
        if n > 0 && !(n == 1 && component[0] == DOT) {
            assert(component@ != seq![DOT]) by {
                assert(seq![DOT][0] == DOT);
            }
            found.push(component);
            assert(views(found@) =~= views(before).push(component@));
        } else {
            assert(n == 1 ==> component@ =~= seq![DOT]);
        }
        if n == len {
            assert(views(found@) =~= steps(path@));
            return found;
        }
        let ghost behind = rest@.skip(n + 1);
        rest = vstd::slice::slice_subrange(rest, n + 1, len);
        assert(rest@ =~= behind);
        assert(views(found@) + steps(rest@) =~= steps(path@));
    }
}

/// Whether two slices hold the same bytes.
fn are_same(a: &[u8], b: &[u8]) -> (same: bool)
    ensures
        same == (a@ == b@),
{
    let len: usize = a.len();
    if len != b.len() {
        return false;
    }
    for i in 0..len
        invariant
            len == a@.len(),
            len == b@.len(),
            forall|j: int| 0 <= j < i ==> a@[j] == b@[j],
    {
        if a[i] != b[i] {
            return false;
        }
    }
    assert(a@ =~= b@);
    true
}

/// Whether the components from `start` on never lead above where they start.
fn check_depth(steps: &Vec<&[u8]>, start: usize) -> (keep: bool)
    requires
        start <= steps@.len(),
    ensures
        keep == keep_depth(views(steps@).skip(start as int)),
{
    let len: usize = steps.len();
    let ghost all = views(steps@).skip(start as int);
    let mut below: usize = 0;
    assert(all.take(0) =~= Seq::<Seq<u8>>::empty());
    for i in start..len
        invariant
            start <= i <= len,
            len == steps@.len(),
            all == views(steps@).skip(start as int),
            below == depth(all.take(i - start)),
            below <= i - start,
            forall|n: int| 0 <= n <= i - start ==> #[trigger] depth(all.take(n)) >= 0,
    {
        let component: &[u8] = steps[i];
        let ghost next = all.take(i - start + 1);
        proof {
            assert(next.drop_last() =~= all.take(i - start));
            assert(next.last() == component@);
        }
        if component.len() == 2 && component[0] == DOT && component[1] == DOT {
            assert(component@ =~= seq![DOT, DOT]);
            if below == 0 {
                assert(depth(next) < 0);
                return false;
            }
            below = below - 1;
        } else {
            assert(component@ != seq![DOT, DOT]) by {
                assert(seq![DOT, DOT][0] == DOT && seq![DOT, DOT][1] == DOT);
            }
            below = below + 1;
        }
    }
    true
}

/// A path without its root and without the components that name a parent
/// directory.
pub fn tame(path: &str) -> (tame: String)
    ensures
        encode_utf8(tame@) == tamed(encode_utf8(path@)),
{
    let mut rest: &str = path;
    let mut tame: String = String::new();
    let ghost all = components(encode_utf8(path@));
    let ghost mut done: Seq<Seq<u8>> = Seq::empty();
    assert(done + components(encode_utf8(rest@)) =~= all);
    loop
        invariant
            done + components(encode_utf8(rest@)) == all,
            encode_utf8(tame@) == rejoined(done),
            all == components(encode_utf8(path@)),
        decreases encode_utf8(rest@).len(),
    {
        let ghost bytes = encode_utf8(rest@);
        let n: usize = find_separator(rest.as_bytes());
        let ghost left = done.push(bytes.take(n as int));
        proof {
            encode_utf8_valid_utf8(rest@);
            assert(left.drop_last() =~= done);
        }
        if n == rest.as_bytes().len() {
            push_component(&mut tame, rest);
            proof {
                assert(bytes.take(n as int) =~= bytes);
                assert(left =~= all);
            }
            return tame;
        }
        proof {
            lemma_separator_is_a_boundary(bytes, n as int);
        }
        let (component, tail) = rest.split_at(n);
        assert(component.spec_bytes() =~= bytes.take(n as int));
        push_component(&mut tame, component);
        proof {
            encode_utf8_valid_utf8(tail@);
            lemma_behind_a_separator_is_a_boundary(encode_utf8(tail@));
        }
        let (_, next) = tail.split_at(1);
        proof {
            assert(next.spec_bytes() =~= bytes.skip(n + 1));
            assert(left + components(bytes.skip(n + 1)) =~= done + components(bytes));
            done = left;
        }
        rest = next;
    }
}

/// How long the first component of a path is.
fn find_separator(path: &[u8]) -> (n: usize)
    ensures
        n == first_len(path@),
        n <= path@.len(),
        n < path@.len() ==> path@[n as int] == SEPARATOR,
{
    let len: usize = path.len();
    let mut i: usize = 0;
    assert(path@.skip(0) =~= path@);
    while i < len && path[i] != SEPARATOR
        invariant
            i <= len,
            len == path@.len(),
            first_len(path@) == i + first_len(path@.skip(i as int)),
        decreases len - i,
    {
        assert(path@.skip(i as int).drop_first() =~= path@.skip(i + 1));
        i = i + 1;
    }
    i
}

/// Add a component to a path, if it is a name.
fn push_component(path: &mut String, component: &str)
    ensures
        encode_utf8(final(path)@) == with_component(
            encode_utf8(old(path)@),
            encode_utf8(component@),
        ),
{
    let bytes: &[u8] = component.as_bytes();
    let n: usize = bytes.len();
    if n == 0 {
        return ;
    }
    if n == 2 && bytes[0] == DOT && bytes[1] == DOT {
        assert(bytes@ =~= seq![DOT, DOT]);
        return ;
    }
    let ghost before = path@;
    if path.as_str().as_bytes().len() > 0 {
        proof {
            lemma_encode_slash();
            lemma_encode_concat(before, "/"@);
            lemma_encode_concat(before + "/"@, component@);
        }
        path.append("/");
        path.append(component);
        assert(encode_utf8(before) + seq![SEPARATOR] =~= encode_utf8(before).push(SEPARATOR));
    } else {
        proof {
            lemma_encode_concat(before, component@);
        }
        path.append(component);
        assert(Seq::<u8>::empty() + encode_utf8(component@) =~= encode_utf8(component@));
        assert(encode_utf8(before) =~= Seq::<u8>::empty());
    }
}

/// The separator, as text.
proof fn lemma_encode_slash()
    ensures
        encode_utf8("/"@) == seq![SEPARATOR],
{
    reveal_strlit("/");
    assert("/"@ =~= seq!['/']);
    assert(is_ascii_chars("/"@));
    is_ascii_chars_encode_utf8("/"@);
    assert("/"@[0] as u8 == SEPARATOR);
    assert(encode_utf8("/"@) =~= seq![SEPARATOR]);
}

/// The bytes of two texts, one after the other.
proof fn lemma_encode_concat(a: Seq<char>, b: Seq<char>)
    ensures
        encode_utf8(a + b) == encode_utf8(a) + encode_utf8(b),
    decreases a.len(),
{
    if a.len() == 0 {
        assert(a + b =~= b);
        assert(encode_utf8(a) + encode_utf8(b) =~= encode_utf8(b));
    } else {
        lemma_encode_concat(a.drop_first(), b);
        assert((a + b).drop_first() =~= a.drop_first() + b);
        assert(encode_utf8(a + b) =~= encode_utf8(a) + encode_utf8(b));
    }
}

/// A text can be split before a separator.
proof fn lemma_separator_is_a_boundary(bytes: Seq<u8>, n: int)
    requires
        valid_utf8(bytes),
        0 <= n < bytes.len(),
        bytes[n] == SEPARATOR,
    ensures
        is_char_boundary(bytes, n),
{
    utf8_byte_ranges_bitwise(SEPARATOR);
    assert(is_leading_byte_width_1(bytes[n]));
    is_char_boundary_iff_is_leading_byte(bytes, n);
}

/// A text can be split behind a separator.
proof fn lemma_behind_a_separator_is_a_boundary(bytes: Seq<u8>)
    requires
        valid_utf8(bytes),
        bytes.len() > 0,
        bytes[0] == SEPARATOR,
    ensures
        is_char_boundary(bytes, 1),
{
    utf8_byte_ranges_bitwise(SEPARATOR);
    assert(is_leading_byte_width_1(bytes[0]));
    reveal_with_fuel(is_char_boundary, 2);
}

/// No separator is in a component.
proof fn lemma_first_component(path: Seq<u8>)
    ensures
        first_len(path) <= path.len(),
        forall|i: int| 0 <= i < first_len(path) ==> path[i] != SEPARATOR,
    decreases path.len(),
{
    if path.len() > 0 && path[0] != SEPARATOR {
        let rest = path.drop_first();
        lemma_first_component(rest);
        assert forall|i: int| 0 <= i < first_len(path) implies path[i] != SEPARATOR by {
            if i > 0 {
                assert(path[i] == rest[i - 1]);
            }
        }
    }
}

/// No component holds a separator.
pub open spec fn are_separate(components: Seq<Seq<u8>>) -> bool {
    forall|k: int, i: int|
        0 <= k < components.len() && 0 <= i < components[k].len() ==> #[trigger] components[k][i]
            != SEPARATOR
}

/// No separator is in any component of a path.
proof fn lemma_components_are_separate(path: Seq<u8>)
    ensures
        are_separate(components(path)),
    decreases path.len(),
{
    lemma_first_component(path);
    let n = first_len(path) as int;
    if n < path.len() {
        let rest = path.skip(n + 1);
        lemma_components_are_separate(rest);
        assert forall|k: int, i: int|
            0 <= k < components(path).len() && 0 <= i < components(path)[k].len() implies #[trigger] components(
            path,
        )[k][i] != SEPARATOR by {
            if k > 0 {
                assert(components(path)[k] == components(rest)[k - 1]);
            }
        }
    }
}

/// The first component of a path is followed by those of what is behind it.
proof fn lemma_first_step(path: Seq<u8>)
    ensures
        ({
            let n = first_len(path) as int;
            let rest = if n >= path.len() {
                Seq::empty()
            } else {
                steps(path.skip(n + 1))
            };
            steps(path) == (if is_step(path.take(n)) {
                seq![path.take(n)] + rest
            } else {
                rest
            })
        }),
{
    let n = first_len(path) as int;
    let pred = |component: Seq<u8>| is_step(component);
    let first = seq![path.take(n)];
    lemma_first_component(path);
    reveal_with_fuel(Seq::filter, 2);
    assert(first.drop_last() =~= Seq::empty());
    assert(first.filter(pred) =~= if is_step(path.take(n)) {
        first
    } else {
        Seq::empty()
    });
    if n >= path.len() {
        assert(path.take(n) =~= path);
        assert(first.filter(pred) + Seq::empty() =~= first.filter(pred));
    } else {
        Seq::filter_distributes_over_add(first, components(path.skip(n + 1)), pred);
        assert(Seq::empty() + steps(path.skip(n + 1)) =~= steps(path.skip(n + 1)));
    }
}

/// The first component ends where the first separator stands.
proof fn lemma_first_len(path: Seq<u8>, n: int)
    requires
        0 <= n < path.len(),
        path[n] == SEPARATOR,
        forall|i: int| 0 <= i < n ==> path[i] != SEPARATOR,
    ensures
        first_len(path) == n,
    decreases path.len(),
{
    if n > 0 {
        lemma_first_len(path.drop_first(), n - 1);
    }
}

/// The steps of two paths with a separator between them.
proof fn lemma_steps_concat(a: Seq<u8>, b: Seq<u8>)
    ensures
        steps(a.push(SEPARATOR) + b) == steps(a) + steps(b),
    decreases a.len(),
{
    let n = first_len(a) as int;
    let whole = a.push(SEPARATOR) + b;
    lemma_first_component(a);
    if n >= a.len() {
        lemma_first_len(whole, n);
        assert(whole.take(n) =~= a);
        assert(a.take(n) =~= a);
        assert(whole.skip(n + 1) =~= b);
    } else {
        let rest = a.skip(n + 1);
        lemma_separator_ends_the_first(a);
        lemma_first_len(whole, n);
        assert(whole.take(n) =~= a.take(n));
        assert(whole.skip(n + 1) =~= rest.push(SEPARATOR) + b);
        lemma_steps_concat(rest, b);
    }
    lemma_first_step(a);
    lemma_first_step(whole);
    assert(steps(whole) =~= steps(a) + steps(b));
}

/// A separator stands behind the first component, unless the path ends there.
proof fn lemma_separator_ends_the_first(path: Seq<u8>)
    requires
        first_len(path) < path.len(),
    ensures
        path[first_len(path) as int] == SEPARATOR,
    decreases path.len(),
{
    if path[0] != SEPARATOR {
        lemma_separator_ends_the_first(path.drop_first());
    }
}

/// A path of nothing leads nowhere.
proof fn lemma_steps_of_nothing()
    ensures
        steps(Seq::empty()) == Seq::<Seq<u8>>::empty(),
{
    lemma_first_step(Seq::empty());
}

/// No component names the parent directory.
pub open spec fn never_climb(components: Seq<Seq<u8>>) -> bool {
    forall|k: int| 0 <= k < components.len() ==> !#[trigger] is_parent(components[k])
}

/// Components none of which names the parent directory only lead down.
proof fn lemma_never_climb(steps: Seq<Seq<u8>>)
    requires
        never_climb(steps),
    ensures
        depth(steps) == steps.len(),
        keep_depth(steps),
    decreases steps.len(),
{
    if steps.len() > 0 {
        let rest = steps.drop_last();
        assert forall|k: int| 0 <= k < rest.len() implies !#[trigger] is_parent(rest[k]) by {
            assert(rest[k] == steps[k]);
        }
        lemma_never_climb(rest);
        assert(!is_parent(steps[steps.len() - 1]));
        assert forall|n: int| 0 <= n <= steps.len() implies #[trigger] depth(steps.take(n))
            >= 0 by {
            if n < steps.len() {
                assert(steps.take(n) =~= rest.take(n));
            } else {
                assert(steps.take(n) =~= steps);
            }
        }
    } else {
        assert forall|n: int| 0 <= n <= steps.len() implies #[trigger] depth(steps.take(n))
            >= 0 by {
            assert(steps.take(n) =~= steps);
        }
    }
}

/// A component that is a name, added to a path, does not make it climb.
proof fn lemma_with_component(path: Seq<u8>, component: Seq<u8>)
    requires
        never_climb(steps(path)),
        !is_absolute(path),
        forall|i: int| 0 <= i < component.len() ==> component[i] != SEPARATOR,
    ensures
        never_climb(steps(with_component(path, component))),
        !is_absolute(with_component(path, component)),
{
    if is_name(component) {
        lemma_first_component(component);
        if first_len(component) < component.len() {
            lemma_separator_ends_the_first(component);
        }
        lemma_first_step(component);
        assert(component.take(first_len(component) as int) =~= component);
        assert(never_climb(steps(component)));
        if path.len() > 0 {
            lemma_steps_concat(path, component);
            let all = steps(path) + steps(component);
            assert forall|k: int| 0 <= k < all.len() implies !#[trigger] is_parent(all[k]) by {
                if k < steps(path).len() {
                    assert(!is_parent(steps(path)[k]));
                } else {
                    assert(!is_parent(steps(component)[k - steps(path).len()]));
                }
            }
        }
    }
}

/// Names joined by separators do not climb.
proof fn lemma_rejoined(components: Seq<Seq<u8>>)
    requires
        are_separate(components),
    ensures
        never_climb(steps(rejoined(components))),
        !is_absolute(rejoined(components)),
    decreases components.len(),
{
    if components.len() > 0 {
        let rest = components.drop_last();
        assert forall|k: int, i: int|
            0 <= k < rest.len() && 0 <= i < rest[k].len() implies #[trigger] rest[k][i]
            != SEPARATOR by {
            assert(rest[k] == components[k]);
        }
        lemma_rejoined(rest);
        assert forall|i: int| 0 <= i < components.last().len() implies components.last()[i]
            != SEPARATOR by {
            assert(components[components.len() - 1][i] != SEPARATOR);
        }
        lemma_with_component(rejoined(rest), components.last());
    } else {
        lemma_steps_of_nothing();
    }
}

/// A path that was tamed is relative, names no parent directory, and so never
/// leaves the directory that it starts from.
pub proof fn law_a_tamed_path_is_relative_and_never_leaves(path: Seq<u8>)
    ensures
        !is_absolute(tamed(path)),
        never_climb(steps(tamed(path))),
        never_leaves(tamed(path)),
{
    lemma_components_are_separate(path);
    lemma_rejoined(components(path));
    lemma_never_climb(steps(tamed(path)));
}

/// A relative path that never leaves the directory that it starts from stays
/// within any directory that it is looked for in.
pub proof fn law_a_relative_path_stays_within_its_directory(base: Seq<u8>, item: Seq<u8>)
    requires
        !is_absolute(item),
        never_leaves(item),
    ensures
        base.len() == 0 || base.last() == SEPARATOR || item.len() == 0 ==> stays_within(
            base,
            base + item,
        ),
        base.len() > 0 ==> stays_within(base, base.push(SEPARATOR) + item),
{
    let outer = steps(base);
    let all = outer + steps(item);
    lemma_steps_of_nothing();
    lemma_steps_concat(base, item);
    assert(outer =~= all.subrange(0, outer.len() as int));
    assert(all.skip(outer.len() as int) =~= steps(item));
    if base.len() == 0 {
        assert(base =~= Seq::empty());
        assert(base + item =~= item);
        assert(all =~= steps(item));
    } else if base.last() == SEPARATOR {
        let front = base.drop_last();
        lemma_steps_concat(front, item);
        lemma_steps_concat(front, Seq::empty());
        assert(front.push(SEPARATOR) =~= base);
        assert(base + Seq::empty() =~= base);
        assert(outer =~= steps(front));
    } else if item.len() == 0 {
        assert(item =~= Seq::empty());
        assert(base + item =~= base);
        assert(all =~= outer);
    }
}

/// Components with a separator between each two.
pub open spec fn joined(components: Seq<Seq<u8>>) -> Seq<u8>
    decreases components.len(),
{
    if components.len() == 0 {
        Seq::empty()
    } else if components.len() == 1 {
        components[0]
    } else {
        components[0] + seq![0x2fu8] + joined(components.drop_first())
    }
}

/// The components of a path are what is between its separators: none of them
/// holds one, and with one between each two they are the path again.
pub proof fn law_a_path_is_its_components_and_the_separators_between(path: Seq<u8>)
    ensures
        components(path).len() > 0,
        joined(components(path)) == path,
        forall|k: int, i: int|
            0 <= k < components(path).len() && 0 <= i < components(path)[k].len()
                ==> #[trigger] components(path)[k][i] != 0x2f,
    decreases path.len(),
{
    lemma_components_are_separate(path);
    lemma_first_component(path);
    let n = first_len(path) as int;
    if n < path.len() {
        let rest = path.skip(n + 1);
        law_a_path_is_its_components_and_the_separators_between(rest);
        lemma_separator_ends_the_first(path);
        assert(components(path).drop_first() =~= components(rest));
        assert(components(path).len() > 1);
        assert(path =~= path.take(n) + seq![0x2fu8] + rest);
    }
}

/// The components of a path that lead somewhere: those that are neither empty nor
/// a single dot.
pub open spec fn way(path: Seq<u8>) -> Seq<Seq<u8>> {
    components(path).filter(|c: Seq<u8>| c.len() > 0 && c != seq![0x2eu8])
}

/// How far below its start a way leads: one for each of its components that is
/// not a pair of dots, less one for each that is.
pub open spec fn level(way: Seq<Seq<u8>>) -> int {
    way.filter(|c: Seq<u8>| c != seq![0x2eu8, 0x2eu8]).len() - way.filter(
        |c: Seq<u8>| c == seq![0x2eu8, 0x2eu8],
    ).len()
}

/// A way that nowhere leads above its start.
pub open spec fn stays_below(way: Seq<Seq<u8>>) -> bool {
    forall|n: int| 0 <= n <= way.len() ==> #[trigger] level(way.take(n)) >= 0
}

/// A way that is that of a directory, or goes on from there and nowhere leads
/// above it again.
pub open spec fn leads_into(base: Seq<u8>, path: Seq<u8>) -> bool {
    &&& (base.len() > 0 && base[0] == 0x2f) == (path.len() > 0 && path[0] == 0x2f)
    &&& way(base).is_prefix_of(way(path))
    &&& stays_below(way(path).skip(way(base).len() as int))
}

/// The components of a path that are names: those that are neither empty nor a
/// pair of dots.
pub open spec fn names(path: Seq<u8>) -> Seq<Seq<u8>> {
    components(path).filter(|c: Seq<u8>| c.len() > 0 && c != seq![0x2eu8, 0x2eu8])
}

/// The same are picked by what picks the same.
proof fn lemma_same_picked(
    items: Seq<Seq<u8>>,
    a: spec_fn(Seq<u8>) -> bool,
    b: spec_fn(Seq<u8>) -> bool,
)
    requires
        forall|c: Seq<u8>| #[trigger] a(c) == b(c),
    ensures
        items.filter(a) == items.filter(b),
    decreases items.len(),
{
    reveal(Seq::filter);
    if items.len() > 0 {
        lemma_same_picked(items.drop_last(), a, b);
    }
}

/// Steps are the way, and their depth is its level.
pub proof fn lemma_way(path: Seq<u8>)
    ensures
        steps(path) == way(path),
{
    lemma_same_picked(
        components(path),
        |component: Seq<u8>| is_step(component),
        |c: Seq<u8>| c.len() > 0 && c != seq![0x2eu8],
    );
}

/// The depth of steps is their level.
proof fn lemma_level(steps: Seq<Seq<u8>>)
    ensures
        depth(steps) == level(steps),
    decreases steps.len(),
{
    reveal(Seq::filter);
    if steps.len() > 0 {
        lemma_level(steps.drop_last());
    }
}

/// Steps keep their depth exactly if they stay below.
proof fn lemma_stays_below(steps: Seq<Seq<u8>>)
    ensures
        keep_depth(steps) == stays_below(steps),
{
    assert forall|n: int| 0 <= n <= steps.len() implies depth(steps.take(n)) == level(
        steps.take(n),
    ) by {
        lemma_level(steps.take(n));
    }
    if keep_depth(steps) {
        assert forall|n: int| 0 <= n <= steps.len() implies #[trigger] level(steps.take(n))
            >= 0 by {
            assert(depth(steps.take(n)) >= 0);
        }
    }
    if stays_below(steps) {
        assert forall|n: int| 0 <= n <= steps.len() implies #[trigger] depth(steps.take(n))
            >= 0 by {
            assert(level(steps.take(n)) >= 0);
        }
    }
}

/// A path is told never to leave its directory exactly if its way stays below, and
/// to stay within another exactly if it leads into it.
pub proof fn law_paths_are_told_by_where_they_lead(
    base: &[u8],
    path: &[u8],
    never: bool,
    within: bool,
)
    requires
        call_ensures(check_never_leaves, (path,), never),
        call_ensures(check_stays_within, (base, path), within),
    ensures
        never <==> stays_below(way(path@)),
        within <==> leads_into(base@, path@),
{
    lemma_way(path@);
    lemma_stays_below(steps(path@));
    lemma_leads_into(base@, path@);
}

/// A path stays within a directory exactly if it leads into it.
pub proof fn lemma_leads_into(base: Seq<u8>, path: Seq<u8>)
    ensures
        stays_within(base, path) == leads_into(base, path),
        never_leaves(path) == stays_below(way(path)),
{
    lemma_way(base);
    lemma_way(path);
    lemma_stays_below(steps(path));
    lemma_stays_below(steps(path).skip(steps(base).len() as int));
}

/// What is left of a path that is tamed is its names, all of them, in their order,
/// with a separator between each two.
pub proof fn law_a_tamed_path_is_the_names_of_the_path(path: &str, tamed_path: String)
    requires
        call_ensures(tame, (path,), tamed_path),
    ensures
        encode_utf8(tamed_path@) == joined(names(encode_utf8(path@))),
{
    lemma_tamed(encode_utf8(path@));
}

/// A tamed path is the names of the path.
pub proof fn lemma_tamed(path: Seq<u8>)
    ensures
        tamed(path) == joined(names(path)),
{
    lemma_rejoined_names(components(path));
}

/// Rejoining joins the names.
proof fn lemma_rejoined_names(parts: Seq<Seq<u8>>)
    ensures
        rejoined(parts) == joined(
            parts.filter(|c: Seq<u8>| c.len() > 0 && c != seq![0x2eu8, 0x2eu8]),
        ),
        rejoined(parts).len() == 0 <==> parts.filter(
            |c: Seq<u8>| c.len() > 0 && c != seq![0x2eu8, 0x2eu8],
        ).len() == 0,
    decreases parts.len(),
{
    reveal(Seq::filter);
    let pred = |c: Seq<u8>| c.len() > 0 && c != seq![0x2eu8, 0x2eu8];
    if parts.len() > 0 {
        let rest = parts.drop_last();
        lemma_rejoined_names(rest);
        let kept = rest.filter(pred);
        if is_name(parts.last()) {
            assert(pred(parts.last()));
            assert(parts.filter(pred) == kept.push(parts.last()));
            lemma_joined_push(kept, parts.last());
            assert(rejoined(rest).push(SEPARATOR) + parts.last() =~= rejoined(rest) + seq![
                0x2fu8,
            ] + parts.last());
        } else {
            assert(!pred(parts.last()));
        }
    }
}

/// One component more is joined at the end.
proof fn lemma_joined_push(parts: Seq<Seq<u8>>, last: Seq<u8>)
    ensures
        joined(parts.push(last)) == (if parts.len() == 0 {
            last
        } else {
            joined(parts) + seq![0x2fu8] + last
        }),
    decreases parts.len(),
{
    reveal_with_fuel(joined, 2);
    if parts.len() > 0 {
        let rest = parts.drop_first();
        lemma_joined_push(rest, last);
        assert(parts.push(last).drop_first() =~= rest.push(last));
        assert(parts.push(last)[0] == parts[0]);
        if rest.len() > 0 {
            assert(parts[0] + seq![0x2fu8] + (joined(rest) + seq![0x2fu8] + last) =~= parts[0]
                + seq![0x2fu8] + joined(rest) + seq![0x2fu8] + last);
        } else {
            assert(rest.push(last) =~= seq![last]);
        }
    }
}

/// A single component that is no pair of dots leads nowhere above.
pub proof fn lemma_plain_name(name: Seq<u8>)
    requires
        name.len() > 0,
        forall|i: int| 0 <= i < name.len() ==> name[i] != 0x2f,
        name != seq![0x2eu8, 0x2eu8],
    ensures
        never_leaves(name),
{
    lemma_first_component(name);
    if first_len(name) < name.len() {
        lemma_separator_ends_the_first(name);
    }
    lemma_first_step(name);
    assert(name.take(first_len(name) as int) =~= name);
    lemma_never_climb(steps(name));
}

} // verus!
