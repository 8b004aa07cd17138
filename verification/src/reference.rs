//! Cross-references: strings of a schema that name a provider by its path
//! from the root container.

use crate::document::Document;
use crate::document::SchemaValue;
use crate::errors::Error;
use crate::graph::Graph;
use crate::graph::GraphModel;
use crate::providers::ContainerId;
use crate::providers::Injection;
use crate::providers::InjectionModel;
use crate::text::chars_of;
use crate::text::find_from;
use crate::text::first_index;
use crate::text::has_prefix;
use crate::text::slice;
use crate::text::split;
use crate::text::split_at_char;
use crate::text::views;
use vstd::prelude::*;
use vstd::string::StrSliceExecFns;
use vstd::string::StringExecFns;

verus! {

/// One step of a cross-reference: the name of a provider, and whether the
/// provider is to be invoked.
#[derive(Clone, Debug, PartialEq, Eq)]
pub struct Segment {
    pub name: String,
    pub invoke: bool,
}

/// The content of a vector of segments.
pub open spec fn segments_view(segments: Seq<Segment>) -> Seq<(Seq<char>, bool)> {
    Seq::new(segments.len(), |i: int| (segments[i].name@, segments[i].invoke))
}

/// One step of a path. A step that holds `(` and, somewhere after it, `)`
/// names the provider before the `(` and asks for it to be invoked; any other
/// step is a name.
pub open spec fn parse_segment(s: Seq<char>) -> (Seq<char>, bool) {
    let open = first_index(s, '(');
    let close = first_index(s, ')');
    if 0 <= open < close < s.len() {
        (s.take(open), true)
    } else {
        (s, false)
    }
}

/// The steps of a dotted path.
pub open spec fn parse_path(path: Seq<char>) -> Seq<(Seq<char>, bool)> {
    let parts = split(path, '.');
    Seq::new(parts.len(), |i: int| parse_segment(parts[i]))
}

/// The prefix that marks a string as a cross-reference.
pub open spec fn reference_prefix() -> Seq<char> {
    "container."@
}

/// Whether a document is a string that begins with the cross-reference prefix.
pub open spec fn is_cross_reference(value: Document) -> bool {
    match value {
        Document::Text(s) => reference_prefix().is_prefix_of(s),
        _ => false,
    }
}

/// The provider that the steps from index `i` on lead to, starting in
/// `container`. Every step but the last names a container provider, whose
/// container the next step is looked up in; the last step names the provider
/// that is meant, or its product where the step asks for it to be invoked.
pub open spec fn resolve_segments(
    g: GraphModel,
    container: ContainerId,
    segments: Seq<(Seq<char>, bool)>,
    i: int,
) -> Result<InjectionModel, Error>
    decreases segments.len() - i,
{
    if i < 0 || i >= segments.len() || !g.has_container(container) {
        Err(Error::ProviderNotFound)
    } else {
        match g.containers[container as int].provider(segments[i].0) {
            None => Err(Error::ProviderNotFound),
            Some(found) => if i + 1 == segments.len() {
                if segments[i].1 {
                    Ok(InjectionModel::Produced(found.id))
                } else {
                    Ok(InjectionModel::Provider(found.id))
                }
            } else {
                match g.wrapped(found.id) {
                    Some(inner) => resolve_segments(g, inner, segments, i + 1),
                    None => Err(Error::ProviderNotFound),
                }
            },
        }
    }
}

/// The provider that the dotted path `path` leads to, starting in `root`.
pub open spec fn resolve_reference(g: GraphModel, root: ContainerId, path: Seq<char>) -> Result<
    InjectionModel,
    Error,
> {
    resolve_segments(g, root, parse_path(path), 0)
}

/// Reads one step of a path.
pub fn parse_step(s: &str) -> (r: Segment)
    ensures
        (r.name@, r.invoke) == parse_segment(s@),
{
    let chars = chars_of(s);
    let open = find_from(&chars, '(', 0);
    let close = find_from(&chars, ')', 0);
    if open < close && close < chars.len() {
        let name = slice(s, 0, open);
        proof {
            assert(s@.take(open as int) =~= s@.subrange(0, open as int));
        }
        Segment { name, invoke: true }
    } else {
        Segment { name: String::from_str(s), invoke: false }
    }
}

/// Reads the steps of a dotted path.
pub fn parse_reference(path: &str) -> (r: Vec<Segment>)
    ensures
        segments_view(r@) == parse_path(path@),
        r.len() >= 1,
{
    let parts = split_at_char(path, '.');
    let mut out: Vec<Segment> = Vec::new();
    let mut i: usize = 0;
    while i < parts.len()
        invariant
            i <= parts.len(),
            out.len() == i,
            forall|j: int|
                0 <= j < i ==> ((#[trigger] out[j]).name@, out[j].invoke) == parse_segment(
                    parts[j]@,
                ),
        decreases parts.len() - i,
    {
        let step = parse_step(parts[i].as_str());
        out.push(step);
        i += 1;
    }
    proof {
        let wanted = parse_path(path@);
        assert(views(parts@) == split(path@, '.'));
        assert(wanted.len() == parts.len());
        assert forall|j: int| 0 <= j < out.len() implies segments_view(out@)[j] == wanted[j] by {
            assert(views(parts@)[j] == parts[j]@);
        }
        assert(segments_view(out@) =~= wanted);
    }
    out
}

/// Whether `value` is a string that begins with `container.`.
pub fn is_str_starts_with_container(value: &SchemaValue) -> (r: bool)
    ensures
        r == is_cross_reference(value@),
{
    match value {
        SchemaValue::Text(s) => has_prefix(s.as_str(), "container."),
        _ => false,
    }
}

/// The path of a cross-reference: what follows the prefix, where `s` begins
/// with it.
pub fn reference_path(s: &str) -> (r: Option<String>)
    ensures
        match r {
            Some(path) => reference_prefix().is_prefix_of(s@) && path@ == s@.skip(
                reference_prefix().len() as int,
            ),
            None => !reference_prefix().is_prefix_of(s@),
        },
{
    if !has_prefix(s, "container.") {
        return None;
    }
    let skip = "container.".unicode_len();
    let end = s.unicode_len();
    let path = slice(s, skip, end);
    proof {
        assert(s@.skip(skip as int) =~= s@.subrange(skip as int, end as int));
    }
    Some(path)
}

/// The provider that the dotted path `name` leads to, starting in the
/// container `root`.
pub fn resolve_provider(graph: &Graph, root: ContainerId, name: &str) -> (r: Result<
    Injection,
    Error,
>)
    requires
        graph.wf(),
    ensures
        match r {
            Ok(found) => resolve_reference(graph@, root, name@) == Ok::<InjectionModel, Error>(
                found@,
            ),
            Err(e) => resolve_reference(graph@, root, name@) == Err::<InjectionModel, Error>(e),
        },
{
    let segments = parse_reference(name);
    let ghost steps = segments_view(segments@);
    let mut container = root;
    let mut i: usize = 0;
    loop
        invariant
            graph.wf(),
            steps == segments_view(segments@),
            steps == parse_path(name@),
            i < segments.len(),
            resolve_reference(graph@, root, name@) == resolve_segments(
                graph@,
                container,
                steps,
                i as int,
            ),
        decreases segments.len() - i,
    {
        let holder = match graph.container(container) {
            Some(c) => c,
            None => {
                return Err(Error::ProviderNotFound);
            },
        };
        let found = match holder.get_provider(segments[i].name.as_str()) {
            Some(f) => f,
            None => {
                return Err(Error::ProviderNotFound);
            },
        };
        if i + 1 == segments.len() {
            if segments[i].invoke {
                return Ok(Injection::Produced(found.id));
            } else {
                return Ok(Injection::Provider(found.id));
            }
        }
        match graph.wrapped(found.id) {
            Some(inner) => {
                container = inner;
                i += 1;
            },
            None => {
                return Err(Error::ProviderNotFound);
            },
        }
    }
}

} // verus!
