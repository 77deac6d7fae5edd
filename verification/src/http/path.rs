//! The paths a program states: literal segments, and segments that bind what a request states.

use crate::text::{joined, pieces, split_nonempty};
use vstd::prelude::*;
use vstd::string::*;

verus! {

/// One segment of a stated path, as text.
pub ghost enum SegmentView {
    /// Matches itself.
    Literal(Seq<char>),
    /// Binds one segment, under a name.
    Param(Seq<char>),
    /// Binds every segment that is left, under a name.
    Tail(Seq<char>),
}

/// One segment of a stated path.
#[derive(Debug)]
pub enum PathSegment {
    /// Matches itself.
    Literal(String),
    /// Binds one segment, under a name.
    Param(String),
    /// Binds every segment that is left, under a name.
    Tail(String),
}

impl View for PathSegment {
    type V = SegmentView;

    open spec fn view(&self) -> SegmentView {
        match self {
            PathSegment::Literal(value) => SegmentView::Literal(value@),
            PathSegment::Param(name) => SegmentView::Param(name@),
            PathSegment::Tail(name) => SegmentView::Tail(name@),
        }
    }
}

impl Clone for PathSegment {
    fn clone(&self) -> (r: Self)
        ensures
            r@ == self@,
    {
        match self {
            PathSegment::Literal(value) => PathSegment::Literal(value.clone()),
            PathSegment::Param(name) => PathSegment::Param(name.clone()),
            PathSegment::Tail(name) => PathSegment::Tail(name.clone()),
        }
    }
}

/// The segments of a sequence of stated segments, as text.
pub open spec fn segments_view(segments: Seq<PathSegment>) -> Seq<SegmentView> {
    segments.map_values(|segment: PathSegment| segment@)
}

/// What one piece of a stated path states: `:name` and `{name}` bind one segment, `{*name}` binds
/// every segment that is left, and anything else matches itself.
pub open spec fn segment_of(piece: Seq<char>) -> SegmentView {
    if piece.len() > 0 && piece[0] == ':' {
        SegmentView::Param(piece.drop_first())
    } else if piece.len() >= 3 && piece[0] == '{' && piece[1] == '*' && piece.last() == '}' {
        SegmentView::Tail(piece.subrange(2, piece.len() - 1))
    } else if piece.len() >= 2 && piece[0] == '{' && piece.last() == '}' {
        SegmentView::Param(piece.subrange(1, piece.len() - 1))
    } else {
        SegmentView::Literal(piece)
    }
}

/// How one segment is written in a path's description.
pub open spec fn rendered(segment: SegmentView) -> Seq<char> {
    match segment {
        SegmentView::Literal(value) => value,
        SegmentView::Param(name) => seq!['{'] + name + seq!['}'],
        SegmentView::Tail(name) => seq!['{', '*'] + name + seq!['}'],
    }
}

/// A path described: `/`, then each segment as it is written, separated by `/`.
pub open spec fn described(segments: Seq<SegmentView>) -> Seq<char> {
    seq!['/'] + joined(segments.map_values(|segment: SegmentView| rendered(segment)), seq!['/'])
}

/// A path a program states, as the segments it is made of.
#[derive(Debug)]
pub struct RoutePath {
    segments: Vec<PathSegment>,
}

impl View for RoutePath {
    type V = Seq<SegmentView>;

    closed spec fn view(&self) -> Seq<SegmentView> {
        segments_view(self.segments@)
    }
}

impl Clone for RoutePath {
    fn clone(&self) -> (r: Self)
        ensures
            r@ == self@,
    {
        RoutePath { segments: copy_segments(self.segments.as_slice()) }
    }
}

/// A copy of each segment, in order.
pub fn copy_segments(segments: &[PathSegment]) -> (r: Vec<PathSegment>)
    ensures
        segments_view(r@) == segments_view(segments@),
{
    let mut r: Vec<PathSegment> = Vec::new();
    let mut i: usize = 0;
    while i < segments.len()
        invariant
            i <= segments.len(),
            r@.len() == i,
            segments_view(r@) == segments_view(segments@.take(i as int)),
        decreases segments.len() - i,
    {
        let segment = segments[i].clone();
        let ghost before = r@;
        r.push(segment);
        proof {
            assert(r@ == before.push(segment));
            assert(segment@ == segments@[i as int]@);
            assert forall|k: int| 0 <= k < i + 1 implies #[trigger] segments_view(r@)[k]
                == segments_view(segments@.take(i + 1))[k] by {
                if k < i {
                    assert(segments_view(before)[k] == segments_view(segments@.take(i as int))[k]);
                }
            }
            assert(segments_view(r@) =~= segments_view(segments@.take(i + 1)));
        }
        i = i + 1;
    }
    proof {
        assert(segments@.take(i as int) =~= segments@);
    }
    r
}

/// Reads what one piece of a stated path states.
fn read_segment(piece: &str) -> (r: PathSegment)
    ensures
        r@ == segment_of(piece@),
{
    let n = piece.unicode_len();
    if n > 0 && piece.get_char(0) == ':' {
        proof {
            assert(piece@.subrange(1, n as int) =~= piece@.drop_first());
        }
        PathSegment::Param(piece.substring_char(1, n).to_owned())
    } else if n >= 3 && piece.get_char(0) == '{' && piece.get_char(1) == '*' && piece.get_char(n - 1)
        == '}' {
        PathSegment::Tail(piece.substring_char(2, n - 1).to_owned())
    } else if n >= 2 && piece.get_char(0) == '{' && piece.get_char(n - 1) == '}' {
        PathSegment::Param(piece.substring_char(1, n - 1).to_owned())
    } else {
        PathSegment::Literal(piece.to_owned())
    }
}

impl RoutePath {
    /// Reads a stated path: its non-empty pieces between `/`s, each as the segment it states.
    pub fn parse(text: &str) -> (r: RoutePath)
        ensures
            r@ == pieces(text@, '/').map_values(|piece: Seq<char>| segment_of(piece)),
    {
        let stated = split_nonempty(text, '/');
        let ghost all = pieces(text@, '/');
        let mut segments: Vec<PathSegment> = Vec::new();
        let mut i: usize = 0;
        while i < stated.len()
            invariant
                i <= stated.len(),
                all.len() == stated@.len(),
                segments@.len() == i,
                forall|k: int| 0 <= k < all.len() ==> #[trigger] all[k] == stated@[k]@,
                segments_view(segments@) == all.take(i as int).map_values(
                    |piece: Seq<char>| segment_of(piece),
                ),
            decreases stated.len() - i,
        {
            let segment = read_segment(stated[i]);
            let ghost before = segments@;
            segments.push(segment);
            proof {
                assert(segments@ == before.push(segment));
                assert(segment@ == segment_of(all[i as int]));
                assert forall|k: int| 0 <= k < i + 1 implies #[trigger] segments_view(segments@)[k]
                    == all.take(i + 1).map_values(|piece: Seq<char>| segment_of(piece))[k] by {
                    if k < i {
                        assert(segments_view(before)[k] == all.take(i as int).map_values(
                            |piece: Seq<char>| segment_of(piece),
                        )[k]);
                    }
                }
                assert(segments_view(segments@) =~= all.take(i + 1).map_values(
                    |piece: Seq<char>| segment_of(piece),
                ));
            }
            i = i + 1;
        }
        proof {
            assert(all.take(i as int) =~= all);
        }
        RoutePath { segments }
    }

    /// Returns the segments this path is made of, in order.
    pub fn segments(&self) -> (r: &[PathSegment])
        ensures
            segments_view(r@) == self@,
    {
        self.segments.as_slice()
    }
}

/// Writes one segment as a path's description writes it.
fn render_into(r: &mut String, segment: &PathSegment)
    ensures
        final(r)@ == old(r)@ + rendered(segment@),
{
    proof {
        reveal_strlit("{");
        reveal_strlit("{*");
        reveal_strlit("}");
    }
    match segment {
        PathSegment::Literal(value) => {
            r.append(value.as_str());
        },
        PathSegment::Param(name) => {
            r.append("{");
            r.append(name.as_str());
            r.append("}");
            proof {
                assert(final(r)@ =~= old(r)@ + rendered(segment@));
            }
        },
        PathSegment::Tail(name) => {
            r.append("{*");
            r.append(name.as_str());
            r.append("}");
            proof {
                assert(final(r)@ =~= old(r)@ + rendered(segment@));
            }
        },
    }
}

/// Describes the path the segments make: `/`, then each segment, separated by `/`.
pub fn describe_path(segments: &[&PathSegment]) -> (r: String)
    ensures
        r@ == described(segments@.map_values(|segment: &PathSegment| segment@)),
{
    proof {
        reveal_strlit("/");
    }
    let ghost all = segments@.map_values(|segment: &PathSegment| rendered(segment@));
    let mut body = String::new();
    let mut i: usize = 0;
    while i < segments.len()
        invariant
            i <= segments.len(),
            all == segments@.map_values(|segment: &PathSegment| rendered(segment@)),
            body@ == joined(all.take(i as int), seq!['/']),
        decreases segments.len() - i,
    {
        proof {
            assert(all.take(i + 1).drop_last() =~= all.take(i as int));
            assert(all.take(1) =~= seq![rendered(segments@[0]@)]);
        }
        if i > 0 {
            body.append("/");
            proof {
                reveal_strlit("/");
                assert("/"@ =~= seq!['/']);
            }
        }
        let ghost prior = body@;
        render_into(&mut body, segments[i]);
        proof {
            assert(all[i as int] == rendered(segments@[i as int]@));
            assert(all.take(i + 1).last() == all[i as int]);
            if i > 0 {
                assert(prior == joined(all.take(i as int), seq!['/']) + seq!['/']);
            }
            assert(body@ =~= joined(all.take(i + 1), seq!['/']));
        }
        i = i + 1;
    }
    proof {
        assert(all.take(i as int) =~= all);
        assert(all =~= segments@.map_values(|segment: &PathSegment| segment@).map_values(
            |segment: SegmentView| rendered(segment),
        ));
    }
    proof {
        reveal_strlit("/");
        assert("/"@ =~= seq!['/']);
    }
    let mut r = String::from_str("/");
    r.append(body.as_str());
    r
}

/// How a router other than this one spells a binding.
#[derive(Debug, Clone, Copy, PartialEq, Eq, Structural)]
pub enum PathSyntax {
    /// `{name}` binds one segment and `{*name}` every segment left.
    Axum,
    /// `{name}` binds one segment and `{name:.*}` every segment left.
    Actix,
}

/// How one segment is spelled for a router.
pub open spec fn spelled_segment(segment: SegmentView, syntax: PathSyntax) -> Seq<char> {
    match segment {
        SegmentView::Literal(value) => value,
        SegmentView::Param(name) => seq!['{'] + name + seq!['}'],
        SegmentView::Tail(name) => match syntax {
            PathSyntax::Axum => seq!['{', '*'] + name + seq!['}'],
            PathSyntax::Actix => seq!['{'] + name + seq![':', '.', '*', '}'],
        },
    }
}

/// A path spelled for a router: `/`, then each segment spelled, separated by `/`.
pub open spec fn spelled_path(segments: Seq<SegmentView>, syntax: PathSyntax) -> Seq<char> {
    seq!['/'] + joined(
        segments.map_values(|segment: SegmentView| spelled_segment(segment, syntax)),
        seq!['/'],
    )
}

/// Writes one segment as a router spells it.
fn spell_into(r: &mut String, segment: &PathSegment, syntax: PathSyntax)
    ensures
        final(r)@ == old(r)@ + spelled_segment(segment@, syntax),
{
    proof {
        reveal_strlit("{");
        reveal_strlit("{*");
        reveal_strlit("}");
        reveal_strlit(":.*}");
    }
    match segment {
        PathSegment::Literal(value) => {
            r.append(value.as_str());
        },
        PathSegment::Param(name) => {
            r.append("{");
            r.append(name.as_str());
            r.append("}");
            proof {
                assert(final(r)@ =~= old(r)@ + spelled_segment(segment@, syntax));
            }
        },
        PathSegment::Tail(name) => {
            match syntax {
                PathSyntax::Axum => {
                    r.append("{*");
                    r.append(name.as_str());
                    r.append("}");
                },
                PathSyntax::Actix => {
                    r.append("{");
                    r.append(name.as_str());
                    r.append(":.*}");
                },
            }
            proof {
                assert(final(r)@ =~= old(r)@ + spelled_segment(segment@, syntax));
            }
        },
    }
}

/// Spells the path the segments make for a router: `/`, then each segment, separated by `/`.
pub fn compose_path(segments: &[&PathSegment], syntax: PathSyntax) -> (r: String)
    ensures
        r@ == spelled_path(segments@.map_values(|segment: &PathSegment| segment@), syntax),
{
    let ghost all = segments@.map_values(|segment: &PathSegment| spelled_segment(segment@, syntax));
    let mut body = String::new();
    let mut i: usize = 0;
    while i < segments.len()
        invariant
            i <= segments.len(),
            all == segments@.map_values(|segment: &PathSegment| spelled_segment(segment@, syntax)),
            body@ == joined(all.take(i as int), seq!['/']),
        decreases segments.len() - i,
    {
        proof {
            assert(all.take(i + 1).drop_last() =~= all.take(i as int));
            assert(all.take(1) =~= seq![spelled_segment(segments@[0]@, syntax)]);
        }
        if i > 0 {
            body.append("/");
            proof {
                reveal_strlit("/");
                assert("/"@ =~= seq!['/']);
            }
        }
        let ghost prior = body@;
        spell_into(&mut body, segments[i], syntax);
        proof {
            assert(all[i as int] == spelled_segment(segments@[i as int]@, syntax));
            assert(all.take(i + 1).last() == all[i as int]);
            if i > 0 {
                assert(prior == joined(all.take(i as int), seq!['/']) + seq!['/']);
            }
            assert(body@ =~= joined(all.take(i + 1), seq!['/']));
        }
        i = i + 1;
    }
    proof {
        assert(all.take(i as int) =~= all);
        assert(all =~= segments@.map_values(|segment: &PathSegment| segment@).map_values(
            |segment: SegmentView| spelled_segment(segment, syntax),
        ));
        reveal_strlit("/");
        assert("/"@ =~= seq!['/']);
    }
    let mut r = String::from_str("/");
    r.append(body.as_str());
    r
}

} // verus!
