//! Paths as sequences of characters: splitting at `/`, the directory of a
//! file, joining, and normalisation of `.` and `..`.
use crate::model::views;
use vstd::prelude::*;
use vstd::string::{StrSliceExecFns, StringExecFns};

verus! {

/// The component `.`, which names the directory it stands in.
pub open spec fn dot() -> Seq<char> {
    "."@
}

/// The component `..`, which names the parent directory.
pub open spec fn dot_dot() -> Seq<char> {
    ".."@
}

/// The separator as a string.
pub open spec fn slash() -> Seq<char> {
    "/"@
}

/// Whether `text` begins with `prefix`.
pub open spec fn starts_with(text: Seq<char>, prefix: Seq<char>) -> bool {
    prefix.len() <= text.len() && text.take(prefix.len() as int) == prefix
}

/// Whether a path starts at the root.
pub open spec fn is_absolute(path: Seq<char>) -> bool {
    path.len() > 0 && path[0] == '/'
}

/// The components of a path: the stretches between its separators. There is
/// always at least one, and a component is empty where two separators meet
/// or the path begins or ends with one.
pub open spec fn split(path: Seq<char>) -> Seq<Seq<char>>
    decreases path.len(),
{
    if path.len() == 0 {
        seq![Seq::empty()]
    } else {
        let before = split(path.drop_last());
        if path.last() == '/' {
            before.push(Seq::empty())
        } else {
            before.drop_last().push(before.last().push(path.last()))
        }
    }
}

/// The directories entered so far, after one more component: an empty
/// component and `.` change nothing, `..` leaves the last directory, and any
/// other name enters it. Above the root there is only the root; a path that
/// does not start at the root keeps the `..` it cannot follow.
pub open spec fn enter(stack: Seq<Seq<char>>, component: Seq<char>, rooted: bool) -> Seq<
    Seq<char>,
> {
    if component.len() == 0 || component == dot() {
        stack
    } else if component == dot_dot() {
        if stack.len() > 0 && stack.last() != dot_dot() {
            stack.drop_last()
        } else if rooted {
            stack
        } else {
            stack.push(component)
        }
    } else {
        stack.push(component)
    }
}

/// The directories entered after all of `components`, taken in order.
pub open spec fn walk(components: Seq<Seq<char>>, rooted: bool) -> Seq<Seq<char>>
    decreases components.len(),
{
    if components.len() == 0 {
        Seq::empty()
    } else {
        enter(walk(components.drop_last(), rooted), components.last(), rooted)
    }
}

/// The components written out with one separator between neighbours.
pub open spec fn render(components: Seq<Seq<char>>) -> Seq<char>
    decreases components.len(),
{
    if components.len() == 0 {
        Seq::empty()
    } else if components.len() == 1 {
        components[0]
    } else {
        render(components.drop_last()) + slash() + components.last()
    }
}

/// The path without empty, `.` and `..` components and without repeated or
/// trailing separators. An absolute path stays absolute.
pub open spec fn normalize(path: Seq<char>) -> Seq<char> {
    let stack = walk(split(path), is_absolute(path));
    if is_absolute(path) {
        slash() + render(stack)
    } else {
        render(stack)
    }
}

/// The position of the last separator of a path, or -1 if it has none.
pub open spec fn last_slash(path: Seq<char>) -> int
    decreases path.len(),
{
    if path.len() == 0 {
        -1
    } else if path.last() == '/' {
        path.len() - 1
    } else {
        last_slash(path.drop_last())
    }
}

/// The directory that holds the file at `path`: what stands before the last
/// separator, the root for a file directly below it, and nothing for a bare
/// file name.
pub open spec fn dirname(path: Seq<char>) -> Seq<char> {
    let at = last_slash(path);
    if at < 0 {
        Seq::empty()
    } else if at == 0 {
        slash()
    } else {
        path.take(at)
    }
}

/// `relative` below the directory `directory`; below no directory it is
/// `relative` itself.
pub open spec fn join(directory: Seq<char>, relative: Seq<char>) -> Seq<char> {
    if directory.len() == 0 {
        relative
    } else {
        directory + slash() + relative
    }
}

pub proof fn lemma_split_nonempty(path: Seq<char>)
    ensures
        split(path).len() >= 1,
    decreases path.len(),
{
    if path.len() > 0 {
        lemma_split_nonempty(path.drop_last());
    }
}

/// The position of the last separator lies inside the path and holds one.
pub proof fn lemma_last_slash(path: Seq<char>)
    ensures
        -1 <= last_slash(path) < path.len(),
        last_slash(path) >= 0 ==> path[last_slash(path)] == '/',
        forall|at: int| last_slash(path) < at < path.len() ==> path[at] != '/',
    decreases path.len(),
{
    if path.len() > 0 && path.last() != '/' {
        let rest = path.drop_last();
        lemma_last_slash(rest);
        assert forall|at: int| last_slash(path) < at < path.len() implies path[at] != '/' by {
            if at < rest.len() {
                assert(path[at] == rest[at]);
            }
        }
    }
}

/// Whether a path ends in a character that can only end a name: it is
/// neither a separator nor a dot.
pub open spec fn ends_in_name(path: Seq<char>) -> bool {
    path.len() > 0 && path.last() != '/' && path.last() != '.'
}

/// Whether a text holds no separator.
pub open spec fn has_no_slash(text: Seq<char>) -> bool {
    forall|at: int| 0 <= at < text.len() ==> text[at] != '/'
}

/// Text without a separator, appended to a path, lengthens its last
/// component and leaves the others alone.
pub proof fn lemma_split_append(path: Seq<char>, suffix: Seq<char>)
    requires
        has_no_slash(suffix),
    ensures
        split(path).len() >= 1,
        split(path + suffix) == split(path).drop_last().push(split(path).last() + suffix),
    decreases suffix.len(),
{
    lemma_split_nonempty(path);
    if suffix.len() == 0 {
        assert(path + suffix =~= path);
        assert(split(path).last() + suffix =~= split(path).last());
        assert(split(path).drop_last().push(split(path).last()) =~= split(path));
    } else {
        let shorter = suffix.drop_last();
        lemma_split_append(path, shorter);
        assert((path + suffix).drop_last() =~= path + shorter);
        assert((path + suffix).last() == suffix.last());
        let before = split(path + shorter);
        assert(before.drop_last() =~= split(path).drop_last());
        assert(before.last().push(suffix.last()) =~= split(path).last() + suffix);
    }
}

/// A component that ends in a name character, with or without text behind
/// it, is a name: it is not empty, not `.` and not `..`.
pub proof fn lemma_name_component(component: Seq<char>, suffix: Seq<char>)
    requires
        ends_in_name(component),
    ensures
        (component + suffix).len() > 0,
        component + suffix != dot(),
        component + suffix != dot_dot(),
{
    reveal_strlit(".");
    reveal_strlit("..");
    let whole = component + suffix;
    let at = component.len() - 1;
    assert(whole[at] == component.last());
    if whole == dot() {
        assert(dot().len() == 1 && dot()[0] == '.');
        assert(at == 0);
    }
    if whole == dot_dot() {
        assert(dot_dot().len() == 2 && dot_dot()[0] == '.' && dot_dot()[1] == '.');
        assert(at == 0 || at == 1);
    }
}

/// Written out, a last component with text behind it is the path with that
/// text behind it.
pub proof fn lemma_render_append(stack: Seq<Seq<char>>, component: Seq<char>, suffix: Seq<char>)
    ensures
        render(stack.push(component + suffix)) == render(stack.push(component)) + suffix,
{
    let plain = stack.push(component);
    let longer = stack.push(component + suffix);
    assert(plain.drop_last() =~= stack);
    assert(longer.drop_last() =~= stack);
    if stack.len() > 0 {
        assert(render(stack) + slash() + (component + suffix) =~= (render(stack) + slash()
            + component) + suffix);
    }
}

/// An extension behind a path that ends in a name stays where it is when the
/// path is normalised.
pub proof fn lemma_normalize_append(path: Seq<char>, suffix: Seq<char>)
    requires
        ends_in_name(path),
        has_no_slash(suffix),
    ensures
        normalize(path + suffix) == normalize(path) + suffix,
        ends_in_name(normalize(path)),
{
    let rooted = is_absolute(path);
    assert((path + suffix)[0] == path[0]);
    assert(is_absolute(path + suffix) == rooted);
    lemma_split_append(path, suffix);
    lemma_split_nonempty(path.drop_last());
    let parts = split(path);
    let last = parts.last();
    assert(last == split(path.drop_last()).last().push(path.last()));
    assert(ends_in_name(last));
    lemma_name_component(last, suffix);
    lemma_name_component(last, Seq::empty());
    assert(last + Seq::<char>::empty() =~= last);
    let longer = parts.drop_last().push(last + suffix);
    assert(longer.drop_last() =~= parts.drop_last());
    assert(longer.last() == last + suffix);
    let stack = walk(parts.drop_last(), rooted);
    assert(walk(parts, rooted) == stack.push(last));
    assert(walk(longer, rooted) == stack.push(last + suffix));
    lemma_render_append(stack, last, suffix);
    lemma_render_ends_with_last(stack.push(last));
    if rooted {
        assert(slash() + (render(stack.push(last)) + suffix) =~= (slash() + render(
            stack.push(last),
        )) + suffix);
    }
}

/// Written out, components end with the last character of the last one.
pub proof fn lemma_render_ends_with_last(components: Seq<Seq<char>>)
    requires
        components.len() > 0,
        components.last().len() > 0,
    ensures
        render(components).len() > 0,
        render(components).last() == components.last().last(),
{
}

/// No component of a path holds a separator.
pub proof fn lemma_split_has_no_slash(path: Seq<char>)
    ensures
        forall|at: int| 0 <= at < split(path).len() ==> has_no_slash(#[trigger] split(path)[at]),
    decreases path.len(),
{
    if path.len() > 0 {
        let before = split(path.drop_last());
        lemma_split_has_no_slash(path.drop_last());
        lemma_split_nonempty(path.drop_last());
        assert forall|at: int| 0 <= at < split(path).len() implies has_no_slash(
            #[trigger] split(path)[at],
        ) by {
            if at < before.len() - 1 {
                assert(split(path)[at] == before[at]);
            } else if at == before.len() - 1 && path.last() != '/' {
                assert(has_no_slash(before[at]));
            } else if at == before.len() - 1 {
                assert(split(path)[at] == before[at]);
            }
        }
    }
}

/// Whether a component is the name of a file or directory: it is not
/// empty, not `.` and not `..`.
pub open spec fn is_name(component: Seq<char>) -> bool {
    component.len() > 0 && component != dot() && component != dot_dot()
}

/// The directories entered are names, but for the `..` that a path which
/// does not start at the root could not follow; and they hold no separator
/// if the components hold none.
pub proof fn lemma_walk_is_clean(components: Seq<Seq<char>>, rooted: bool)
    ensures
        forall|at: int|
            0 <= at < walk(components, rooted).len() ==> is_name(
                #[trigger] walk(components, rooted)[at],
            ) || (!rooted && walk(components, rooted)[at] == dot_dot()),
        (forall|at: int| 0 <= at < components.len() ==> has_no_slash(#[trigger] components[at]))
            ==> forall|at: int|
            0 <= at < walk(components, rooted).len() ==> has_no_slash(
                #[trigger] walk(components, rooted)[at],
            ),
    decreases components.len(),
{
    reveal_strlit(".");
    reveal_strlit("..");
    if components.len() > 0 {
        let rest = components.drop_last();
        let stack = walk(rest, rooted);
        lemma_walk_is_clean(rest, rooted);
        let after = walk(components, rooted);
        assert forall|at: int| 0 <= at < after.len() implies is_name(#[trigger] after[at]) || (
        !rooted && after[at] == dot_dot()) by {
            if at < stack.len() {
                assert(after[at] == stack[at]);
            }
        }
        if forall|at: int| 0 <= at < components.len() ==> has_no_slash(#[trigger] components[at]) {
            assert forall|at: int| 0 <= at < rest.len() implies has_no_slash(
                #[trigger] rest[at],
            ) by {
                assert(rest[at] == components[at]);
            }
            assert(has_no_slash(components[components.len() - 1]));
            assert forall|at: int| 0 <= at < after.len() implies has_no_slash(
                #[trigger] after[at],
            ) by {
                if at < stack.len() {
                    assert(after[at] == stack[at]);
                }
            }
        }
    }
}

/// Written out, components that are not empty begin with the first
/// character of the first one.
pub proof fn lemma_render_begins_with_first(components: Seq<Seq<char>>)
    requires
        components.len() > 0,
        components[0].len() > 0,
    ensures
        render(components).len() > 0,
        render(components)[0] == components[0][0],
    decreases components.len(),
{
    if components.len() > 1 {
        let rest = components.drop_last();
        assert(rest[0] == components[0]);
        lemma_render_begins_with_first(rest);
    }
}

/// A normalised path starts at the root if and only if the path does.
pub proof fn lemma_normalize_keeps_root(path: Seq<char>)
    ensures
        is_absolute(normalize(path)) == is_absolute(path),
{
    reveal_strlit("/");
    reveal_strlit("..");
    if !is_absolute(path) {
        let stack = walk(split(path), false);
        lemma_split_has_no_slash(path);
        lemma_walk_is_clean(split(path), false);
        if stack.len() > 0 {
            assert(is_name(stack[0]) || stack[0] == dot_dot());
            assert(has_no_slash(stack[0]));
            lemma_render_begins_with_first(stack);
        }
    } else {
        assert((slash() + render(walk(split(path), true)))[0] == '/');
    }
}

/// Whether `text` begins with `prefix`.
pub fn has_prefix(text: &str, prefix: &str) -> (yes: bool)
    ensures
        yes == starts_with(text@, prefix@),
{
    let length = prefix.unicode_len();
    if text.unicode_len() < length {
        return false;
    }
    let mut at: usize = 0;
    while at < length
        invariant
            at <= length,
            length == prefix@.len(),
            length <= text@.len(),
            text@.take(at as int) == prefix@.take(at as int),
        decreases length - at,
    {
        if text.get_char(at) != prefix.get_char(at) {
            assert(text@.take(length as int)[at as int] != prefix@[at as int]);
            return false;
        }
        assert(text@.take(at + 1) =~= text@.take(at as int).push(text@[at as int]));
        assert(prefix@.take(at + 1) =~= prefix@.take(at as int).push(prefix@[at as int]));
        at = at + 1;
    }
    assert(prefix@.take(length as int) =~= prefix@);
    true
}

/// Whether a path starts at the root.
pub fn starts_at_root(path: &str) -> (yes: bool)
    ensures
        yes == is_absolute(path@),
{
    path.unicode_len() > 0 && path.get_char(0) == '/'
}

/// Splits a path at its separators.
pub fn split_path(path: &str) -> (components: Vec<String>)
    ensures
        views(components@) == split(path@),
{
    let length = path.unicode_len();
    let mut components: Vec<String> = Vec::new();
    let mut start: usize = 0;
    let mut at: usize = 0;
    assert(path@.take(0) =~= Seq::empty());
    assert(views(components@).push(path@.subrange(0, 0)) =~= split(path@.take(0)));
    while at < length
        invariant
            start <= at <= length,
            length == path@.len(),
            views(components@).push(path@.subrange(start as int, at as int)) == split(
                path@.take(at as int),
            ),
        decreases length - at,
    {
        let ghost before = views(components@);
        let ghost from = start as int;
        let ghost prefix = path@.take(at + 1);
        assert(prefix.drop_last() =~= path@.take(at as int));
        assert(prefix.last() == path@[at as int]);
        if path.get_char(at) == '/' {
            let component = String::from_str(path.substring_char(start, at));
            components.push(component);
            start = at + 1;
            assert(views(components@) =~= before.push(path@.subrange(from, at as int)));
            assert(path@.subrange(at + 1, at + 1) =~= Seq::empty());
        } else {
            assert(path@.subrange(from, at + 1) =~= path@.subrange(from, at as int).push(
                path@[at as int],
            ));
            assert(before.push(path@.subrange(from, at as int)).drop_last() =~= before);
        }
        at = at + 1;
    }
    let ghost before = views(components@);
    components.push(String::from_str(path.substring_char(start, length)));
    assert(views(components@) =~= before.push(path@.subrange(start as int, length as int)));
    assert(path@.take(length as int) =~= path@);
    components
}

/// Takes one more component into account in the directories entered so far.
fn enter_component(stack: &mut Vec<String>, component: &String, rooted: bool)
    ensures
        views(final(stack)@) == enter(views(old(stack)@), component@, rooted),
{
    let ghost before = views(stack@);
    let here = String::from_str(".");
    let above = String::from_str("..");
    if component.as_str().unicode_len() == 0 || *component == here {
    } else if *component == above {
        let depth = stack.len();
        if depth > 0 && stack[depth - 1] != above {
            assert(before.last() == stack@[depth - 1]@);
            stack.pop();
            assert(views(stack@) =~= before.drop_last());
        } else if rooted {
            assert(depth > 0 ==> before.last() == stack@[depth - 1]@);
        } else {
            assert(depth > 0 ==> before.last() == stack@[depth - 1]@);
            stack.push(component.clone());
            assert(views(stack@) =~= before.push(component@));
        }
    } else {
        stack.push(component.clone());
        assert(views(stack@) =~= before.push(component@));
    }
}

/// Writes components out with one separator between neighbours.
fn render_path(components: &Vec<String>) -> (text: String)
    ensures
        text@ == render(views(components@)),
{
    let mut text = String::new();
    let mut index: usize = 0;
    assert(views(components@).take(0) =~= Seq::empty());
    while index < components.len()
        invariant
            index <= components.len(),
            text@ == render(views(components@).take(index as int)),
        decreases components.len() - index,
    {
        let ghost done = views(components@).take(index + 1);
        assert(done.drop_last() =~= views(components@).take(index as int));
        assert(done.last() == components@[index as int]@);
        if index == 0 {
            text = components[index].clone();
        } else {
            text.append("/");
            text.append(components[index].as_str());
        }
        index = index + 1;
    }
    assert(views(components@).take(index as int) =~= views(components@));
    text
}

/// Removes empty, `.` and `..` components and repeated or trailing
/// separators from a path.
pub fn normalize_path(path: &str) -> (normal: String)
    ensures
        normal@ == normalize(path@),
{
    let rooted = starts_at_root(path);
    let components = split_path(path);
    let mut stack: Vec<String> = Vec::new();
    let mut index: usize = 0;
    assert(views(components@).take(0) =~= Seq::empty());
    assert(views(stack@) =~= Seq::empty());
    while index < components.len()
        invariant
            index <= components.len(),
            views(stack@) == walk(views(components@).take(index as int), rooted),
        decreases components.len() - index,
    {
        let ghost done = views(components@).take(index + 1);
        assert(done.drop_last() =~= views(components@).take(index as int));
        assert(done.last() == components@[index as int]@);
        enter_component(&mut stack, &components[index], rooted);
        index = index + 1;
    }
    assert(views(components@).take(index as int) =~= views(components@));
    let rendered = render_path(&stack);
    if rooted {
        String::from_str("/").concat(rendered.as_str())
    } else {
        rendered
    }
}

/// The directory that holds the file at `path`.
pub fn parent_directory(path: &str) -> (directory: String)
    ensures
        directory@ == dirname(path@),
{
    let mut at = path.unicode_len();
    assert(path@.take(at as int) =~= path@);
    while at > 0
        invariant
            at <= path@.len(),
            last_slash(path@) == last_slash(path@.take(at as int)),
        decreases at,
    {
        let ghost prefix = path@.take(at as int);
        assert(prefix.drop_last() =~= path@.take(at - 1));
        assert(prefix.last() == path@[at - 1]);
        if path.get_char(at - 1) == '/' {
            if at == 1 {
                return String::from_str("/");
            } else {
                return String::from_str(path.substring_char(0, at - 1));
            }
        }
        at = at - 1;
    }
    String::new()
}

/// `relative` below the directory `directory`.
pub fn join_paths(directory: &str, relative: &str) -> (joined: String)
    ensures
        joined@ == join(directory@, relative@),
{
    if directory.unicode_len() == 0 {
        String::from_str(relative)
    } else {
        let mut joined = String::from_str(directory);
        joined.append("/");
        joined.append(relative);
        joined
    }
}

} // verus!
