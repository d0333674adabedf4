//! A list of paths that is kept in lexicographic order, and its rendering as
//! an indented hierarchy.
//!
//! Because the paths are sorted, paths below the same directory are neighbours.
//! The hierarchy is therefore written in one pass: for each path only the
//! components that it does not share with the path before it are written, each
//! on a line of its own and indented by its depth.

use vstd::prelude::*;
use vstd::string::StringExecFns;

use crate::components::common_prefix_len;
use crate::components::path_components;
use crate::components::shared_prefix_len;
use crate::components::split_path_to_components;
use crate::sorting::sort_strings;
use crate::sorting::sorted;
use crate::text::texts;

verus! {

/// The mark that precedes a component on its line.
pub open spec fn branch_mark() -> Seq<char> {
    seq!['|', '_', '_']
}

/// `depth` dots: the indentation of a component at that depth.
pub open spec fn indentation(depth: nat) -> Seq<char> {
    Seq::new(depth, |i: int| '.')
}

/// The line of one component: a line break, the indentation, the mark and the
/// component's name.
pub open spec fn component_line(component: Seq<char>, depth: nat) -> Seq<char> {
    seq!['\n'] + indentation(depth) + branch_mark() + component
}

/// The lines of the components `from..to` of a path, each indented by its
/// position in the path.
pub open spec fn component_lines(components: Seq<Seq<char>>, from: int, to: int) -> Seq<char>
    decreases to - from,
{
    if to <= from {
        Seq::<char>::empty()
    } else {
        component_lines(components, from, to - 1) + component_line(
            components[to - 1],
            (to - 1) as nat,
        )
    }
}

/// What the first path of a list contributes: its outermost component as it
/// is, then a line for each of the others. A path without components
/// contributes nothing.
pub open spec fn first_path_text(components: Seq<Seq<char>>) -> Seq<char> {
    if components.len() == 0 {
        Seq::<char>::empty()
    } else {
        components[0] + component_lines(components, 1, components.len() as int)
    }
}

/// What a later path contributes: a line for each component after those that
/// it shares with the path before it.
pub open spec fn next_path_text(previous: Seq<Seq<char>>, components: Seq<Seq<char>>) -> Seq<
    char,
> {
    component_lines(
        components,
        common_prefix_len(components, previous),
        components.len() as int,
    )
}

/// The hierarchy of the first `count` paths.
pub open spec fn hierarchy_prefix(paths: Seq<Seq<char>>, count: int) -> Seq<char>
    decreases count,
{
    if count <= 0 {
        Seq::<char>::empty()
    } else if count == 1 {
        first_path_text(path_components(paths[0]))
    } else {
        hierarchy_prefix(paths, count - 1) + next_path_text(
            path_components(paths[count - 2]),
            path_components(paths[count - 1]),
        )
    }
}

/// The hierarchy of a list of paths as text.
pub open spec fn hierarchy_text(paths: Seq<Seq<char>>) -> Seq<char> {
    hierarchy_prefix(paths, paths.len() as int)
}

/// Appends the line of one component to `out`.
pub fn write_path_component(out: &mut String, component: &str, indentation_amount: usize)
    ensures
        final(out)@ == old(out)@ + component_line(component@, indentation_amount as nat),
{
    proof {
        reveal_strlit("\n");
        reveal_strlit(".");
        reveal_strlit("|__");
    }
    out.append("\n");
    let mut written: usize = 0;
    while written < indentation_amount
        invariant
            written <= indentation_amount,
            "."@ == seq!['.'],
            out@ == old(out)@ + seq!['\n'] + indentation(written as nat),
        decreases indentation_amount - written,
    {
        out.append(".");
        written = written + 1;
    }
    out.append("|__");
    out.append(component);
}

/// Appends the lines of the components from `from` on to `out`.
fn write_components(out: &mut String, components: &Vec<String>, from: usize)
    requires
        from <= components.len(),
    ensures
        final(out)@ == old(out)@ + component_lines(
            texts(components@),
            from as int,
            components.len() as int,
        ),
{
    let mut position: usize = from;
    while position < components.len()
        invariant
            from <= position <= components.len(),
            out@ == old(out)@ + component_lines(texts(components@), from as int, position as int),
        decreases components.len() - position,
    {
        write_path_component(out, components[position].as_str(), position);
        position = position + 1;
    }
}

/// Paths in non-decreasing lexicographic order of their text.
pub struct SortedPaths(Vec<String>);

impl View for SortedPaths {
    type V = Seq<Seq<char>>;

    /// The texts of the paths, in the order in which the list holds them.
    closed spec fn view(&self) -> Seq<Seq<char>> {
        texts(self.0@)
    }
}

impl SortedPaths {
    /// What holds of every list: its paths are in order.
    #[verifier::type_invariant]
    pub open spec fn in_order(&self) -> bool {
        sorted(self@)
    }

    /// Sorts `paths` and keeps them. The list holds exactly the paths given,
    /// each as often as it was given.
    pub fn new(paths: Vec<String>) -> (list: Self)
        ensures
            sorted(list@),
            list@.to_multiset() == texts(paths@).to_multiset(),
    {
        SortedPaths(sort_strings(paths))
    }

    /// Hands out the paths, in order.
    pub fn into_inner(self) -> (paths: Vec<String>)
        ensures
            texts(paths@) == self@,
            sorted(texts(paths@)),
    {
        proof {
            use_type_invariant(&self);
        }
        self.0
    }

    /// Number of paths in the list.
    pub fn len(&self) -> (count: usize)
        ensures
            count == self@.len(),
    {
        self.0.len()
    }

    /// The path at `index`, if the list has that many paths.
    pub fn get(&self, index: usize) -> (path: Option<&String>)
        ensures
            path is Some <==> index < self@.len(),
            path matches Some(text) ==> text@ == self@[index as int],
    {
        if index < self.0.len() {
            Some(&self.0[index])
        } else {
            None
        }
    }

    /// Renders the list as an indented hierarchy.
    pub fn render(&self) -> (text: String)
        ensures
            text@ == hierarchy_text(self@),
    {
        let mut text = String::new();
        if self.0.len() == 0 {
            return text;
        }
        let mut components = split_path_to_components(self.0[0].as_str());
        if components.len() > 0 {
            text.append(components[0].as_str());
            write_components(&mut text, &components, 1);
        }
        let mut position: usize = 1;
        while position < self.0.len()
            invariant
                1 <= position <= self.0.len(),
                texts(components@) == path_components(self@[position - 1]),
                text@ == hierarchy_prefix(self@, position as int),
            decreases self.0.len() - position,
        {
            let next_components = split_path_to_components(self.0[position].as_str());
            let shared = shared_prefix_len(&next_components, &components);
            proof {
                crate::components::lemma_common_prefix(
                    texts(next_components@),
                    texts(components@),
                    0,
                );
            }
            write_components(&mut text, &next_components, shared);
            components = next_components;
            position = position + 1;
        }
        text
    }
}

/// Two lists that hold the same paths render to the same text.
pub proof fn lemma_render_depends_on_paths_only(first: SortedPaths, second: SortedPaths)
    requires
        first@ == second@,
    ensures
        hierarchy_text(first@) == hierarchy_text(second@),
{
}

} // verus!
