//! Routes a request against the paths a program states, with no router but the program's own.

use crate::http::message::{
    method_not_allowed_message, not_found_message, DirectError, DirectRequest, ErrorView,
};
use crate::http::method::{method_label, HttpMethod, METHOD_NOT_ALLOWED, NOT_FOUND};
use crate::http::path::{
    compose_path, describe_path, described, segment_of, segments_view, spelled_path, PathSegment,
    PathSyntax, RoutePath, SegmentView,
};
use crate::shape::algebra::words_seq;
use crate::text::{join_words, joined, law_pieces_of_joined, pieces, split_nonempty, strings_view};
use vstd::prelude::*;
use vstd::slice::slice_subrange;
use vstd::string::*;

verus! {

/// One part of a selector, as values.
pub ghost enum PartView {
    /// Selects a method.
    Method(HttpMethod),
    /// Selects a path.
    Path(Seq<SegmentView>),
    /// Selects a path that more segments may follow under a later part.
    Prefix(Seq<SegmentView>),
}

/// One part of a selector.
#[derive(Debug)]
pub enum DirectSelectorPart {
    /// Selects a method.
    Method(HttpMethod),
    /// Selects a path.
    Path(RoutePath),
    /// Selects a path that more segments may follow under a later part.
    Prefix(RoutePath),
}

impl View for DirectSelectorPart {
    type V = PartView;

    open spec fn view(&self) -> PartView {
        match self {
            DirectSelectorPart::Method(method) => PartView::Method(*method),
            DirectSelectorPart::Path(path) => PartView::Path(path@),
            DirectSelectorPart::Prefix(path) => PartView::Prefix(path@),
        }
    }
}

impl Clone for DirectSelectorPart {
    fn clone(&self) -> (r: Self)
        ensures
            r@ == self@,
    {
        match self {
            DirectSelectorPart::Method(method) => DirectSelectorPart::Method(*method),
            DirectSelectorPart::Path(path) => DirectSelectorPart::Path(path.clone()),
            DirectSelectorPart::Prefix(path) => DirectSelectorPart::Prefix(path.clone()),
        }
    }
}

/// The parts of a selector, as values.
pub open spec fn parts_view(parts: Seq<DirectSelectorPart>) -> Seq<PartView> {
    parts.map_values(|part: DirectSelectorPart| part@)
}

/// The segments a selector's paths state, in order.
pub open spec fn selector_segments(parts: Seq<PartView>) -> Seq<SegmentView>
    decreases parts.len(),
{
    if parts.len() == 0 {
        Seq::empty()
    } else {
        selector_segments(parts.drop_last()) + match parts.last() {
            PartView::Method(_) => Seq::empty(),
            PartView::Path(path) => path,
            PartView::Prefix(path) => path,
        }
    }
}

/// The method a selector selects: the last one it states, if any.
pub open spec fn selector_method(parts: Seq<PartView>) -> Option<HttpMethod>
    decreases parts.len(),
{
    if parts.len() == 0 {
        None
    } else {
        match parts.last() {
            PartView::Method(method) => Some(method),
            _ => selector_method(parts.drop_last()),
        }
    }
}

/// A selector described as `METHOD /path`, with `*` where it selects no method.
pub open spec fn selector_label(parts: Seq<PartView>) -> Seq<char> {
    let method = match selector_method(parts) {
        Some(method) => method_label(method),
        None => "*"@,
    };
    method + " "@ + described(selector_segments(parts))
}

/// What stated segments bind of the pieces of a path asked for, or `None` where they do not match
/// it: a literal matches itself, a parameter binds one piece, a tail binds every piece that is left,
/// joined by `/`, and a piece left over is no match.
pub open spec fn captured(segments: Seq<SegmentView>, asked: Seq<Seq<char>>) -> Option<
    Seq<Seq<char>>,
>
    decreases segments.len(),
{
    if segments.len() == 0 {
        if asked.len() == 0 {
            Some(Seq::empty())
        } else {
            None
        }
    } else {
        match segments[0] {
            SegmentView::Literal(value) => if asked.len() > 0 && asked[0] == value {
                captured(segments.drop_first(), asked.drop_first())
            } else {
                None
            },
            SegmentView::Param(_) => if asked.len() > 0 {
                match captured(segments.drop_first(), asked.drop_first()) {
                    Some(rest) => Some(seq![asked[0]] + rest),
                    None => None,
                }
            } else {
                None
            },
            SegmentView::Tail(_) => Some(seq![joined(asked, seq!['/'])]),
        }
    }
}

/// Carries route-selection meaning, which for this interpretation is all the routing there is.
#[derive(Debug)]
pub struct DirectSelector {
    parts: Vec<DirectSelectorPart>,
}

impl View for DirectSelector {
    type V = Seq<PartView>;

    closed spec fn view(&self) -> Seq<PartView> {
        parts_view(self.parts@)
    }
}

/// A copy of each part, in order.
fn copy_parts(parts: &[DirectSelectorPart]) -> (r: Vec<DirectSelectorPart>)
    ensures
        parts_view(r@) == parts_view(parts@),
{
    let mut r: Vec<DirectSelectorPart> = Vec::new();
    let mut i: usize = 0;
    while i < parts.len()
        invariant
            i <= parts.len(),
            r@.len() == i,
            parts_view(r@) == parts_view(parts@.take(i as int)),
        decreases parts.len() - i,
    {
        let part = parts[i].clone();
        let ghost before = r@;
        r.push(part);
        proof {
            assert(r@ == before.push(part));
            assert forall|k: int| 0 <= k < i + 1 implies #[trigger] parts_view(r@)[k] == parts_view(
                parts@.take(i + 1),
            )[k] by {
                if k < i {
                    assert(parts_view(before)[k] == parts_view(parts@.take(i as int))[k]);
                }
            }
            assert(parts_view(r@) =~= parts_view(parts@.take(i + 1)));
        }
        i = i + 1;
    }
    proof {
        assert(parts@.take(i as int) =~= parts@);
    }
    r
}

impl Clone for DirectSelector {
    fn clone(&self) -> (r: Self)
        ensures
            r@ == self@,
    {
        DirectSelector { parts: copy_parts(self.parts.as_slice()) }
    }
}

impl Default for DirectSelector {
    fn default() -> (r: Self)
        ensures
            r@ == Seq::<PartView>::empty(),
    {
        let r = DirectSelector { parts: Vec::new() };
        proof {
            assert(parts_view(r.parts@) =~= Seq::<PartView>::empty());
        }
        r
    }
}

impl DirectSelector {
    /// Returns the segments this selector's paths state, in order.
    fn segments(&self) -> (r: Vec<&PathSegment>)
        ensures
            r@.map_values(|segment: &PathSegment| segment@) == selector_segments(self@),
    {
        let ghost all = self@;
        let mut r: Vec<&PathSegment> = Vec::new();
        let mut i: usize = 0;
        while i < self.parts.len()
            invariant
                i <= self.parts.len(),
                all == self@,
                all == parts_view(self.parts@),
                r@.map_values(|segment: &PathSegment| segment@) == selector_segments(
                    all.take(i as int),
                ),
            decreases self.parts.len() - i,
        {
            proof {
                assert(all.take(i + 1).drop_last() =~= all.take(i as int));
                assert(all.take(i + 1).last() == self.parts@[i as int]@);
            }
            match &self.parts[i] {
                DirectSelectorPart::Method(_) => {
                    proof {
                        assert(selector_segments(all.take(i + 1)) =~= selector_segments(
                            all.take(i as int),
                        ));
                    }
                },
                DirectSelectorPart::Path(path) | DirectSelectorPart::Prefix(path) => {
                    let stated = path.segments();
                    let ghost start = r@;
                    let mut k: usize = 0;
                    while k < stated.len()
                        invariant
                            k <= stated.len(),
                            r@ == start + stated@.take(k as int).map_values(
                                |segment: PathSegment| &segment,
                            ),
                        decreases stated.len() - k,
                    {
                        r.push(&stated[k]);
                        proof {
                            assert(stated@.take(k + 1).map_values(|segment: PathSegment| &segment)
                                =~= stated@.take(k as int).map_values(
                                |segment: PathSegment| &segment,
                            ).push(&stated@[k as int]));
                        }
                        k = k + 1;
                    }
                    proof {
                        assert(stated@.take(k as int) =~= stated@);
                        assert(r@.map_values(|segment: &PathSegment| segment@) =~= start.map_values(
                            |segment: &PathSegment| segment@,
                        ) + segments_view(stated@));
                        assert(selector_segments(all.take(i + 1)) =~= selector_segments(
                            all.take(i as int),
                        ) + segments_view(stated@));
                    }
                },
            }
            i = i + 1;
        }
        proof {
            assert(all.take(i as int) =~= all);
        }
        r
    }

    /// Returns the method this selector selects: the last one it states.
    pub fn method(&self) -> (r: Option<HttpMethod>)
        ensures
            r == selector_method(self@),
    {
        let ghost all = self@;
        let mut found: Option<HttpMethod> = None;
        let mut i: usize = 0;
        while i < self.parts.len()
            invariant
                i <= self.parts.len(),
                all == self@,
                all == parts_view(self.parts@),
                found == selector_method(all.take(i as int)),
            decreases self.parts.len() - i,
        {
            proof {
                assert(all.take(i + 1).drop_last() =~= all.take(i as int));
                assert(all.take(i + 1).last() == self.parts@[i as int]@);
            }
            match &self.parts[i] {
                DirectSelectorPart::Method(method) => {
                    found = Some(*method);
                },
                _ => {},
            }
            i = i + 1;
        }
        proof {
            assert(all.take(i as int) =~= all);
        }
        found
    }

    /// Returns the composed absolute path this selector matches.
    pub fn path(&self) -> (r: String)
        ensures
            r@ == described(selector_segments(self@)),
    {
        let segments = self.segments();
        describe_path(segments.as_slice())
    }

    /// Returns the composed path in the spelling a router reads.
    pub fn spelled_path(&self, syntax: PathSyntax) -> (r: String)
        ensures
            r@ == spelled_path(selector_segments(self@), syntax),
    {
        let segments = self.segments();
        compose_path(segments.as_slice(), syntax)
    }

    /// Returns the selected method and path, using `*` when no method is selected.
    pub fn label(&self) -> (r: String)
        ensures
            r@ == selector_label(self@),
    {
        let mut r = match self.method() {
            Some(method) => String::from_str(method.label()),
            None => String::from_str("*"),
        };
        r.append(" ");
        let path = self.path();
        r.append(path.as_str());
        r
    }

    /// Returns what the path bound, or nothing where this selector does not match it.
    pub fn captures(&self, path: &str) -> (r: Option<Vec<String>>)
        ensures
            match r {
                Some(bound) => captured(selector_segments(self@), pieces(path@, '/')) == Some(
                    strings_view(bound@),
                ),
                None => captured(selector_segments(self@), pieces(path@, '/')) is None,
            },
    {
        let asked = split_nonempty(path, '/');
        let segments = self.segments();
        let ghost segs = selector_segments(self@);
        let ghost pieces_asked = words_seq(asked@);
        let mut bound: Vec<String> = Vec::new();
        let mut i: usize = 0;
        let mut j: usize = 0;
        assert(segs.skip(0) =~= segs);
        assert(pieces_asked.skip(0) =~= pieces_asked);
        assert(strings_view(bound@) =~= Seq::<Seq<char>>::empty());
        while i < segments.len()
            invariant
                i <= segments.len(),
                j <= asked.len(),
                segs == segments@.map_values(|segment: &PathSegment| segment@),
                segs == selector_segments(self@),
                pieces_asked == words_seq(asked@),
                pieces_asked == pieces(path@, '/'),
                captured(segs, pieces_asked) == match captured(
                    segs.skip(i as int),
                    pieces_asked.skip(j as int),
                ) {
                    Some(rest) => Some(strings_view(bound@) + rest),
                    None => None,
                },
            decreases segments.len() - i,
        {
            let ghost rest_segs = segs.skip(i as int);
            let ghost rest_asked = pieces_asked.skip(j as int);
            proof {
                assert(rest_segs.len() > 0);
                assert(rest_asked.len() == asked@.len() - j);
                assert(rest_segs[0] == segments@[i as int]@);
                assert(rest_segs.drop_first() =~= segs.skip(i + 1));
                if j < asked.len() {
                    assert(rest_asked[0] == asked@[j as int]@);
                    assert(rest_asked.drop_first() =~= pieces_asked.skip(j + 1));
                }
            }
            match segments[i] {
                PathSegment::Literal(value) => {
                    assert(rest_segs[0] == SegmentView::Literal(value@));
                    if j >= asked.len() {
                        assert(captured(rest_segs, rest_asked) is None);
                        return None;
                    }
                    let piece = asked[j].to_owned();
                    let same = piece == *value;
                    if !same {
                        return None;
                    }
                    j = j + 1;
                },
                PathSegment::Param(_) => {
                    if j >= asked.len() {
                        return None;
                    }
                    let piece = asked[j].to_owned();
                    let ghost before = bound@;
                    bound.push(piece);
                    proof {
                        assert(bound@ == before.push(piece));
                        assert(strings_view(bound@) =~= strings_view(before).push(piece@));
                        assert forall|rest: Seq<Seq<char>>|
                            #![trigger strings_view(bound@) + rest]
                            strings_view(before) + (seq![piece@] + rest) == strings_view(bound@)
                                + rest by {
                            assert(strings_view(before) + (seq![piece@] + rest) =~= strings_view(
                                bound@,
                            ) + rest);
                        }
                    }
                    j = j + 1;
                },
                PathSegment::Tail(_) => {
                    let left = slice_subrange(asked.as_slice(), j, asked.len());
                    let joined_rest = join_words(left, "/");
                    proof {
                        reveal_strlit("/");
                        assert("/"@ =~= seq!['/']);
                        assert(words_seq(left@) =~= rest_asked);
                    }
                    let ghost before = bound@;
                    bound.push(joined_rest);
                    proof {
                        assert(bound@ == before.push(joined_rest));
                        assert(strings_view(bound@) =~= strings_view(before) + seq![joined_rest@]);
                    }
                    return Some(bound);
                },
            }
            i = i + 1;
        }
        proof {
            assert(segs.skip(i as int).len() == 0);
        }
        if j == asked.len() {
            proof {
                assert(pieces_asked.skip(j as int).len() == 0);
                assert(strings_view(bound@) + Seq::<Seq<char>>::empty() =~= strings_view(bound@));
            }
            Some(bound)
        } else {
            None
        }
    }
}

/// Whether a selector's method lets a request sent under `method` through.
pub open spec fn method_allows(selected: Option<HttpMethod>, method: Option<HttpMethod>) -> bool {
    match selected {
        None => true,
        Some(m) => method == Some(m),
    }
}

/// Where a request is routed among the selectors of a route.
pub ghost enum Selection {
    /// The entry at this index reads the request, and its path bound these texts.
    Reached(int, Seq<Seq<char>>),
    /// Some entry reads the path, none under the request's method.
    NotAllowed,
    /// No entry reads the path.
    NotFound,
}

/// The same selection, read one entry further on.
pub open spec fn shifted(selection: Selection, by: int) -> Selection {
    match selection {
        Selection::Reached(index, bound) => Selection::Reached(index + by, bound),
        other => other,
    }
}

/// Where a request sent under `method` for a path with these pieces is routed: to the first entry
/// whose selector reads the path and lets the method through; failing that, to no entry, noting
/// whether some entry read the path at all.
pub open spec fn selection(
    selectors: Seq<Seq<PartView>>,
    method: Option<HttpMethod>,
    asked: Seq<Seq<char>>,
) -> Selection
    decreases selectors.len(),
{
    if selectors.len() == 0 {
        Selection::NotFound
    } else {
        let rest = shifted(selection(selectors.drop_first(), method, asked), 1);
        match captured(selector_segments(selectors[0]), asked) {
            None => rest,
            Some(bound) => if method_allows(selector_method(selectors[0]), method) {
                Selection::Reached(0, bound)
            } else {
                match rest {
                    Selection::NotFound => Selection::NotAllowed,
                    other => other,
                }
            },
        }
    }
}

/// What routing the rest of the entries from `start` on means for the whole route, where `allowed`
/// says whether an earlier entry read the path.
pub open spec fn resumed(start: int, allowed: bool, selection: Selection) -> Selection {
    match selection {
        Selection::Reached(index, bound) => Selection::Reached(index + start, bound),
        Selection::NotAllowed => Selection::NotAllowed,
        Selection::NotFound => if allowed {
            Selection::NotAllowed
        } else {
            Selection::NotFound
        },
    }
}

struct DirectRouteEntry<Endpoint> {
    selector: DirectSelector,
    endpoint: Endpoint,
}

/// Carries a composable collection of endpoints and the selectors that reach them.
pub struct DirectRoute<Endpoint> {
    entries: Vec<DirectRouteEntry<Endpoint>>,
}

impl<Endpoint> Default for DirectRoute<Endpoint> {
    fn default() -> (r: Self)
        ensures
            r.selectors() == Seq::<Seq<PartView>>::empty(),
            r.endpoints() == Seq::<Endpoint>::empty(),
    {
        let r = DirectRoute { entries: Vec::new() };
        proof {
            assert(r.selectors() =~= Seq::<Seq<PartView>>::empty());
            assert(r.endpoints() =~= Seq::<Endpoint>::empty());
        }
        r
    }
}

impl<Endpoint> DirectRoute<Endpoint> {
    /// The selector of each entry, in declaration order.
    pub closed spec fn selectors(&self) -> Seq<Seq<PartView>> {
        self.entries@.map_values(|entry: DirectRouteEntry<Endpoint>| entry.selector@)
    }

    /// The endpoint of each entry, in declaration order.
    pub closed spec fn endpoints(&self) -> Seq<Endpoint> {
        self.entries@.map_values(|entry: DirectRouteEntry<Endpoint>| entry.endpoint)
    }

    /// Returns each composed selector as `METHOD /path`, in declaration order.
    pub fn labels(&self) -> (r: Vec<String>)
        ensures
            strings_view(r@) == self.selectors().map_values(
                |parts: Seq<PartView>| selector_label(parts),
            ),
    {
        let mut r: Vec<String> = Vec::new();
        let mut i: usize = 0;
        while i < self.entries.len()
            invariant
                i <= self.entries.len(),
                r@.len() == i,
                forall|k: int| 0 <= k < i ==> #[trigger] r@[k]@ == selector_label(self.selectors()[k]),
            decreases self.entries.len() - i,
        {
            let label = self.entries[i].selector.label();
            r.push(label);
            i = i + 1;
        }
        proof {
            assert(strings_view(r@) =~= self.selectors().map_values(
                |parts: Seq<PartView>| selector_label(parts),
            ));
        }
        r
    }

    /// Returns each composed route path, in declaration order.
    pub fn paths(&self) -> (r: Vec<String>)
        ensures
            strings_view(r@) == self.selectors().map_values(
                |parts: Seq<PartView>| described(selector_segments(parts)),
            ),
    {
        let mut r: Vec<String> = Vec::new();
        let mut i: usize = 0;
        while i < self.entries.len()
            invariant
                i <= self.entries.len(),
                r@.len() == i,
                forall|k: int|
                    0 <= k < i ==> #[trigger] r@[k]@ == described(
                        selector_segments(self.selectors()[k]),
                    ),
            decreases self.entries.len() - i,
        {
            let path = self.entries[i].selector.path();
            r.push(path);
            i = i + 1;
        }
        proof {
            assert(strings_view(r@) =~= self.selectors().map_values(
                |parts: Seq<PartView>| described(selector_segments(parts)),
            ));
        }
        r
    }

    /// Returns the selector of one entry.
    pub fn selector(&self, index: usize) -> (r: &DirectSelector)
        requires
            index < self.selectors().len(),
        ensures
            r@ == self.selectors()[index as int],
    {
        &self.entries[index].selector
    }

    /// Returns how many entries the route holds.
    pub fn len(&self) -> (r: usize)
        ensures
            r == self.selectors().len(),
            r == self.endpoints().len(),
    {
        self.entries.len()
    }

    /// Returns the endpoint of one entry.
    pub fn endpoint(&self, index: usize) -> (r: &Endpoint)
        requires
            index < self.endpoints().len(),
        ensures
            *r == self.endpoints()[index as int],
    {
        &self.entries[index].endpoint
    }

    /// Selects the entry a request reaches, and what its path bound.
    ///
    /// Declaration order is the order candidates are read in, so a surface answers with the first
    /// endpoint that states it. A path that is declared under other methods is answered as such,
    /// rather than as nothing being there.
    pub fn select(&self, request: &DirectRequest) -> (r: Result<(usize, Vec<String>), DirectError>)
        ensures
            r matches Ok((index, _)) ==> index < self.endpoints().len(),
            match r {
                Ok((index, bound)) => selection(
                    self.selectors(),
                    request@.method,
                    pieces(request@.path, '/'),
                ) == Selection::Reached(index as int, strings_view(bound@)),
                Err(error) => {
                    ||| selection(self.selectors(), request@.method, pieces(request@.path, '/'))
                        == Selection::NotAllowed && error@ == (ErrorView {
                        status: METHOD_NOT_ALLOWED,
                        message: method_not_allowed_message(request@.path),
                    })
                    ||| selection(self.selectors(), request@.method, pieces(request@.path, '/'))
                        == Selection::NotFound && error@ == (ErrorView {
                        status: NOT_FOUND,
                        message: not_found_message(request@.path),
                    })
                },
            },
    {
        let ghost all = self.selectors();
        let ghost method = request@.method;
        let ghost asked = pieces(request@.path, '/');
        let mut allowed = false;
        let mut i: usize = 0;
        assert(all.skip(0) =~= all);
        while i < self.entries.len()
            invariant
                i <= self.entries.len(),
                all == self.selectors(),
                all.len() == self.entries.len(),
                method == request@.method,
                asked == pieces(request@.path, '/'),
                selection(all, method, asked) == resumed(
                    i as int,
                    allowed,
                    selection(all.skip(i as int), method, asked),
                ),
            decreases self.entries.len() - i,
        {
            let ghost rest = all.skip(i as int);
            proof {
                assert(rest[0] == self.entries@[i as int].selector@);
                assert(rest.drop_first() =~= all.skip(i + 1));
            }
            let entry = &self.entries[i];
            match entry.selector.captures(request.path()) {
                None => {},
                Some(bound) => {
                    allowed = true;
                    let selected = entry.selector.method();
                    let lets_through = match selected {
                        None => true,
                        Some(m) => match request.method() {
                            Some(asked_under) => m == asked_under,
                            None => false,
                        },
                    };
                    if lets_through {
                        return Ok((i, bound));
                    }
                },
            }
            i = i + 1;
        }
        proof {
            assert(all.skip(i as int).len() == 0);
        }
        if allowed {
            Err(DirectError::method_not_allowed(request.path()))
        } else {
            Err(DirectError::not_found(request.path()))
        }
    }
}

/// Routing over two routes joined: where the first reaches an entry, that entry; otherwise the
/// second route's entry, counted after the first route's; and where neither reaches one, a path
/// that either route reads is answered as not allowed.
pub open spec fn joined_selection(left: Selection, right: Selection, offset: int) -> Selection {
    match left {
        Selection::Reached(index, bound) => Selection::Reached(index, bound),
        Selection::NotAllowed => match right {
            Selection::Reached(index, bound) => Selection::Reached(index + offset, bound),
            _ => Selection::NotAllowed,
        },
        Selection::NotFound => shifted(right, offset),
    }
}

/// A request to a route joined from two is answered as the first route answers it, unless the
/// first route reaches no entry, in which case the second route decides.
pub proof fn law_selection_of_coproduct(
    left: Seq<Seq<PartView>>,
    right: Seq<Seq<PartView>>,
    method: Option<HttpMethod>,
    asked: Seq<Seq<char>>,
)
    ensures
        selection(left + right, method, asked) == joined_selection(
            selection(left, method, asked),
            selection(right, method, asked),
            left.len() as int,
        ),
    decreases left.len(),
{
    if left.len() == 0 {
        assert(left + right =~= right);
        match selection(right, method, asked) {
            Selection::Reached(index, bound) => {},
            _ => {},
        }
    } else {
        assert((left + right)[0] == left[0]);
        assert((left + right).drop_first() =~= left.drop_first() + right);
        law_selection_of_coproduct(left.drop_first(), right, method, asked);
    }
}

/// The entry a request reaches is the first whose selector reads the path and lets the method
/// through, and what its path bound is what the selector captures.
pub proof fn law_reached_is_first(
    selectors: Seq<Seq<PartView>>,
    method: Option<HttpMethod>,
    asked: Seq<Seq<char>>,
    index: int,
    bound: Seq<Seq<char>>,
)
    requires
        selection(selectors, method, asked) == Selection::Reached(index, bound),
    ensures
        0 <= index < selectors.len(),
        captured(selector_segments(selectors[index]), asked) == Some(bound),
        method_allows(selector_method(selectors[index]), method),
        forall|k: int|
            0 <= k < index ==> !(#[trigger] captured(selector_segments(selectors[k]), asked) is Some
                && method_allows(selector_method(selectors[k]), method)),
    decreases selectors.len(),
{
    let first = selectors[0];
    let rest = selectors.drop_first();
    match captured(selector_segments(first), asked) {
        Some(c) => {
            if !method_allows(selector_method(first), method) {
                law_reached_is_first(rest, method, asked, index - 1, bound);
                assert forall|k: int| 0 <= k < index implies !(#[trigger] captured(
                    selector_segments(selectors[k]),
                    asked,
                ) is Some && method_allows(selector_method(selectors[k]), method)) by {
                    if k > 0 {
                        assert(selectors[k] == rest[k - 1]);
                    }
                }
            }
        },
        None => {
            law_reached_is_first(rest, method, asked, index - 1, bound);
            assert forall|k: int| 0 <= k < index implies !(#[trigger] captured(
                selector_segments(selectors[k]),
                asked,
            ) is Some && method_allows(selector_method(selectors[k]), method)) by {
                if k > 0 {
                    assert(selectors[k] == rest[k - 1]);
                }
            }
        },
    }
}

/// A request no entry reaches is answered as not allowed exactly when some entry reads its path.
pub proof fn law_refusal(selectors: Seq<Seq<PartView>>, method: Option<HttpMethod>, asked: Seq<Seq<char>>)
    ensures
        selection(selectors, method, asked) == Selection::NotFound <==> forall|k: int|
            0 <= k < selectors.len() ==> #[trigger] captured(selector_segments(selectors[k]), asked)
                is None,
        selection(selectors, method, asked) == Selection::NotAllowed ==> exists|k: int|
            0 <= k < selectors.len() && #[trigger] captured(selector_segments(selectors[k]), asked)
                is Some,
    decreases selectors.len(),
{
    if selectors.len() > 0 {
        let rest = selectors.drop_first();
        law_refusal(rest, method, asked);
        assert forall|k: int| 0 < k < selectors.len() implies selectors[k] == rest[k - 1] by {}
        if selection(rest, method, asked) == Selection::NotAllowed {
            let k = choose|k: int|
                0 <= k < rest.len() && #[trigger] captured(selector_segments(rest[k]), asked) is Some;
            assert(selectors[k + 1] == rest[k]);
        }
        if captured(selector_segments(selectors[0]), asked) is None {
            if forall|k: int|
                0 <= k < rest.len() ==> #[trigger] captured(selector_segments(rest[k]), asked) is None {
                assert forall|k: int| 0 <= k < selectors.len() implies #[trigger] captured(
                    selector_segments(selectors[k]),
                    asked,
                ) is None by {
                    if k > 0 {
                        assert(selectors[k] == rest[k - 1]);
                    }
                }
            } else {
                let k = choose|k: int|
                    0 <= k < rest.len() && !(#[trigger] captured(selector_segments(rest[k]), asked)
                        is None);
                assert(selectors[k + 1] == rest[k]);
            }
        }
    }
}

/// Literal segments read the very pieces they state, and leave what follows to the segments after
/// them.
proof fn lemma_captured_after_literals(
    values: Seq<Seq<char>>,
    segments: Seq<SegmentView>,
    asked: Seq<Seq<char>>,
)
    ensures
        captured(
            values.map_values(|value: Seq<char>| SegmentView::Literal(value)) + segments,
            values + asked,
        ) == captured(segments, asked),
    decreases values.len(),
{
    let literals = values.map_values(|value: Seq<char>| SegmentView::Literal(value));
    if values.len() == 0 {
        assert(literals + segments =~= segments);
        assert(values + asked =~= asked);
    } else {
        let rest = values.drop_first();
        lemma_captured_after_literals(rest, segments, asked);
        assert((literals + segments)[0] == SegmentView::Literal(values[0]));
        assert((values + asked)[0] == values[0]);
        assert((literals + segments).drop_first() =~= rest.map_values(
            |value: Seq<char>| SegmentView::Literal(value),
        ) + segments);
        assert((values + asked).drop_first() =~= rest + asked);
    }
}

/// Nesting a route under a prefix of literal segments keeps every endpoint reachable: a request for
/// the prefix's pieces followed by a path is routed as the un-nested route routes the path alone.
pub proof fn law_nesting_keeps_reachability(
    values: Seq<Seq<char>>,
    selectors: Seq<Seq<PartView>>,
    method: Option<HttpMethod>,
    asked: Seq<Seq<char>>,
)
    ensures
        selection(
            precomposed(
                seq![PartView::Prefix(values.map_values(|value: Seq<char>| SegmentView::Literal(value)))],
                selectors,
            ),
            method,
            values + asked,
        ) == selection(selectors, method, asked),
    decreases selectors.len(),
{
    let prefix = seq![PartView::Prefix(values.map_values(|value: Seq<char>| SegmentView::Literal(value)))];
    let nested = precomposed(prefix, selectors);
    if selectors.len() > 0 {
        law_nesting_keeps_reachability(values, selectors.drop_first(), method, asked);
        assert(nested.drop_first() =~= precomposed(prefix, selectors.drop_first()));
        assert(nested[0] == prefix + selectors[0]);
        law_compose_reads_in_order(prefix, selectors[0]);
        let literals = values.map_values(|value: Seq<char>| SegmentView::Literal(value));
        assert(prefix.drop_last() =~= Seq::<PartView>::empty());
        assert(prefix.last() == PartView::Prefix(literals));
        assert(selector_segments(Seq::<PartView>::empty()) == Seq::<SegmentView>::empty());
        assert(selector_method(Seq::<PartView>::empty()) is None);
        assert(selector_segments(prefix) =~= Seq::<SegmentView>::empty() + values.map_values(
            |value: Seq<char>| SegmentView::Literal(value),
        ));
        assert(selector_method(prefix) is None);
        lemma_captured_after_literals(values, selector_segments(selectors[0]), asked);
    }
}

/// The segments of a composed selector are the first's, then the second's; its method is the
/// second's where it states one, and the first's otherwise.
pub proof fn law_compose_reads_in_order(first: Seq<PartView>, second: Seq<PartView>)
    ensures
        selector_segments(first + second) == selector_segments(first) + selector_segments(second),
        selector_method(first + second) == match selector_method(second) {
            Some(method) => Some(method),
            None => selector_method(first),
        },
    decreases second.len(),
{
    if second.len() == 0 {
        assert(first + second =~= first);
        assert(selector_segments(first) + Seq::<SegmentView>::empty() =~= selector_segments(first));
    } else {
        assert((first + second).drop_last() =~= first + second.drop_last());
        assert((first + second).last() == second.last());
        law_compose_reads_in_order(first, second.drop_last());
        assert(selector_segments(first + second) =~= selector_segments(first) + selector_segments(
            second,
        ));
    }
}

/// Precomposing twice is precomposing once by the composed selector, precomposing by the identity
/// changes nothing, and precomposing a joined route precomposes each of its halves.
pub proof fn law_precompose_action(
    outer: Seq<PartView>,
    inner: Seq<PartView>,
    left: Seq<Seq<PartView>>,
    right: Seq<Seq<PartView>>,
)
    ensures
        precomposed(outer, precomposed(inner, left)) == precomposed(outer + inner, left),
        precomposed(Seq::empty(), left) == left,
        precomposed(outer, left + right) == precomposed(outer, left) + precomposed(outer, right),
{
    assert forall|k: int| 0 <= k < left.len() implies #[trigger] precomposed(
        outer,
        precomposed(inner, left),
    )[k] == precomposed(outer + inner, left)[k] by {
        assert(outer + (inner + left[k]) =~= (outer + inner) + left[k]);
    }
    assert(precomposed(outer, precomposed(inner, left)) =~= precomposed(outer + inner, left));
    assert forall|k: int| 0 <= k < left.len() implies #[trigger] precomposed(Seq::empty(), left)[k]
        == left[k] by {
        assert(Seq::<PartView>::empty() + left[k] =~= left[k]);
    }
    assert(precomposed(Seq::empty(), left) =~= left);
    assert(precomposed(outer, left + right) =~= precomposed(outer, left) + precomposed(outer, right));
}

/// Interprets categorical route composition as the only routing this interpretation needs.
#[derive(Debug, Default)]
pub struct DirectRouteImpl;

/// Each selector of a route, with another selector stated before it.
pub open spec fn precomposed(selector: Seq<PartView>, selectors: Seq<Seq<PartView>>) -> Seq<
    Seq<PartView>,
> {
    selectors.map_values(|parts: Seq<PartView>| selector + parts)
}

/// The segments a stated path reads as.
pub open spec fn parsed_path(text: Seq<char>) -> Seq<SegmentView> {
    pieces(text, '/').map_values(|piece: Seq<char>| segment_of(piece))
}

/// The selector a program states for one endpoint: a method, then a path.
pub open spec fn endpoint_selector(method: HttpMethod, path: Seq<char>) -> Seq<PartView> {
    seq![PartView::Method(method), PartView::Path(parsed_path(path))]
}

impl DirectRouteImpl {
    /// The selector that selects everything.
    pub fn identity(&self) -> (r: DirectSelector)
        ensures
            r@ == Seq::<PartView>::empty(),
    {
        DirectSelector::default()
    }

    /// The selector that states what `first` states, then what `second` states.
    pub fn compose(&self, first: DirectSelector, second: DirectSelector) -> (r: DirectSelector)
        ensures
            r@ == first@ + second@,
    {
        let mut first = first;
        let mut second = second;
        let ghost before = first.parts@;
        let ghost added = second.parts@;
        first.parts.append(&mut second.parts);
        proof {
            assert(first.parts@ == before + added);
            assert(parts_view(first.parts@) =~= parts_view(before) + parts_view(added));
        }
        first
    }

    /// The route with no entries.
    pub fn initial<Endpoint>(&self) -> (r: DirectRoute<Endpoint>)
        ensures
            r.selectors() == Seq::<Seq<PartView>>::empty(),
            r.endpoints() == Seq::<Endpoint>::empty(),
    {
        DirectRoute::default()
    }

    /// The route whose entries are `left`'s, then `right`'s.
    pub fn coproduct<Endpoint>(&self, left: DirectRoute<Endpoint>, right: DirectRoute<Endpoint>) -> (r:
        DirectRoute<Endpoint>)
        ensures
            r.selectors() == left.selectors() + right.selectors(),
            r.endpoints() == left.endpoints() + right.endpoints(),
    {
        let mut left = left;
        let mut right = right;
        let ghost before = left.entries@;
        let ghost added = right.entries@;
        let ghost left_selectors = left.selectors();
        let ghost right_selectors = right.selectors();
        let ghost left_endpoints = left.endpoints();
        let ghost right_endpoints = right.endpoints();
        left.entries.append(&mut right.entries);
        proof {
            assert(left.entries@ == before + added);
            assert(left.selectors() =~= left_selectors + right_selectors);
            assert(left.endpoints() =~= left_endpoints + right_endpoints);
        }
        left
    }

    /// The route whose entries are `route`'s, each with `selector` stated before its own.
    pub fn precompose<Endpoint>(&self, selector: DirectSelector, route: DirectRoute<Endpoint>) -> (r:
        DirectRoute<Endpoint>)
        ensures
            r.selectors() == precomposed(selector@, route.selectors()),
            r.endpoints() == route.endpoints(),
    {
        let ghost all = route.entries@;
        let mut entries: Vec<DirectRouteEntry<Endpoint>> = Vec::new();
        for entry in it: route.entries.into_iter()
            invariant
                it.seq() == all,
                it.index() <= all.len(),
                entries@.len() == it.index(),
                forall|k: int|
                    #![trigger entries@[k]]
                    0 <= k < it.index() ==> entries@[k].selector@ == selector@ + all[k].selector@
                        && entries@[k].endpoint == all[k].endpoint,
        {
            let ghost index = it.index() as int;
            assert(entry == all[index]);
            let DirectRouteEntry { selector: own, endpoint } = entry;
            let composed = self.compose(selector.clone(), own);
            entries.push(DirectRouteEntry { selector: composed, endpoint });
        }
        let r = DirectRoute { entries };
        proof {
            assert(r.selectors() =~= precomposed(selector@, route.selectors()));
            assert(r.endpoints() =~= route.endpoints());
        }
        r
    }

    /// The route with one entry: the endpoint, under the selector that selects everything.
    pub fn lift<Endpoint>(&self, endpoint: Endpoint) -> (r: DirectRoute<Endpoint>)
        ensures
            r.selectors() == seq![Seq::<PartView>::empty()],
            r.endpoints() == seq![endpoint],
    {
        let selector = self.identity();
        let r = DirectRoute { entries: vec![DirectRouteEntry { selector, endpoint }] };
        proof {
            assert(r.selectors() =~= seq![Seq::<PartView>::empty()]);
            assert(r.endpoints() =~= seq![endpoint]);
        }
        r
    }

    /// The selector that selects one method.
    pub fn http_method(&self, method: HttpMethod) -> (r: DirectSelector)
        ensures
            r@ == seq![PartView::Method(method)],
    {
        let r = DirectSelector { parts: vec![DirectSelectorPart::Method(method)] };
        proof {
            assert(r@ =~= seq![PartView::Method(method)]);
        }
        r
    }

    /// The selector that selects one path.
    pub fn http_path(&self, path: &RoutePath) -> (r: DirectSelector)
        ensures
            r@ == seq![PartView::Path(path@)],
    {
        let r = DirectSelector { parts: vec![DirectSelectorPart::Path(path.clone())] };
        proof {
            assert(r@ =~= seq![PartView::Path(path@)]);
        }
        r
    }

    /// The selector that selects a path that more segments may follow.
    pub fn http_prefix(&self, prefix: &RoutePath) -> (r: DirectSelector)
        ensures
            r@ == seq![PartView::Prefix(prefix@)],
    {
        let r = DirectSelector { parts: vec![DirectSelectorPart::Prefix(prefix.clone())] };
        proof {
            assert(r@ =~= seq![PartView::Prefix(prefix@)]);
        }
        r
    }

    /// The route with one entry: the endpoint, under a method and a stated path.
    pub fn at<Endpoint>(&self, method: HttpMethod, path: &str, endpoint: Endpoint) -> (r: DirectRoute<
        Endpoint,
    >)
        ensures
            r.selectors() == seq![endpoint_selector(method, path@)],
            r.endpoints() == seq![endpoint],
    {
        let stated = RoutePath::parse(path);
        let selector = self.compose(self.http_method(method), self.http_path(&stated));
        let r = self.precompose(selector, self.lift(endpoint));
        proof {
            assert(seq![PartView::Method(method)] + seq![PartView::Path(stated@)] =~= endpoint_selector(
                method,
                path@,
            ));
            assert(endpoint_selector(method, path@) + Seq::<PartView>::empty() =~= endpoint_selector(
                method,
                path@,
            ));
            assert(r.selectors() =~= seq![endpoint_selector(method, path@)]);
        }
        r
    }
}

/// Whether every stated segment is a parameter.
pub open spec fn all_parameters(segments: Seq<SegmentView>) -> bool {
    forall|i: int| 0 <= i < segments.len() ==> (#[trigger] segments[i]) is Param
}

/// Whether no stated segment is a tail.
pub open spec fn without_tail(segments: Seq<SegmentView>) -> bool {
    forall|i: int| 0 <= i < segments.len() ==> !((#[trigger] segments[i]) is Tail)
}

/// Segments that are all parameters bind a path of as many pieces as it is: each piece, in the
/// order the path states it.
pub proof fn law_parameters_bind_pieces_in_order(segments: Seq<SegmentView>, asked: Seq<Seq<char>>)
    requires
        all_parameters(segments),
        asked.len() == segments.len(),
    ensures
        captured(segments, asked) == Some(asked),
    decreases segments.len(),
{
    if segments.len() == 0 {
        assert(asked =~= Seq::<Seq<char>>::empty());
    } else {
        assert(segments[0] is Param);
        assert(all_parameters(segments.drop_first())) by {
            assert forall|i: int| 0 <= i < segments.drop_first().len() implies (
            #[trigger] segments.drop_first()[i]) is Param by {
                assert(segments.drop_first()[i] == segments[i + 1]);
            }
        }
        law_parameters_bind_pieces_in_order(segments.drop_first(), asked.drop_first());
        assert(seq![asked[0]] + asked.drop_first() =~= asked);
    }
}

/// Reading a path in two parts: where the first segments, none of them a tail, meet exactly the
/// first pieces, what the whole binds is what the first segments bind of the first pieces followed
/// by what the rest bind of the rest, and it matches only where both parts match.
pub proof fn law_captures_follow_the_path(
    first: Seq<SegmentView>,
    second: Seq<SegmentView>,
    first_asked: Seq<Seq<char>>,
    second_asked: Seq<Seq<char>>,
)
    requires
        without_tail(first),
        first_asked.len() == first.len(),
    ensures
        captured(first + second, first_asked + second_asked) == match (
            captured(first, first_asked),
            captured(second, second_asked),
        ) {
            (Some(before), Some(after)) => Some(before + after),
            _ => None::<Seq<Seq<char>>>,
        },
    decreases first.len(),
{
    if first.len() == 0 {
        assert(first + second =~= second);
        assert(first_asked =~= Seq::<Seq<char>>::empty());
        assert(first_asked + second_asked =~= second_asked);
        if let Some(after) = captured(second, second_asked) {
            assert(Seq::<Seq<char>>::empty() + after =~= after);
        }
    } else {
        let whole = first + second;
        let asked = first_asked + second_asked;
        assert(whole[0] == first[0]);
        assert(whole.drop_first() =~= first.drop_first() + second);
        assert(asked.len() > 0);
        assert(asked[0] == first_asked[0]);
        assert(asked.drop_first() =~= first_asked.drop_first() + second_asked);
        assert(without_tail(first.drop_first())) by {
            assert forall|i: int| 0 <= i < first.drop_first().len() implies !((
            #[trigger] first.drop_first()[i]) is Tail) by {
                assert(first.drop_first()[i] == first[i + 1]);
            }
        }
        assert(!(first[0] is Tail));
        law_captures_follow_the_path(
            first.drop_first(),
            second,
            first_asked.drop_first(),
            second_asked,
        );
        if first[0] is Param {
            if let Some(rest) = captured(first.drop_first(), first_asked.drop_first()) {
                if let Some(after) = captured(second, second_asked) {
                    assert(seq![first_asked[0]] + (rest + after) =~= (seq![first_asked[0]] + rest)
                        + after);
                }
            }
        }
    }
}

/// The segments stating each of some literal values, in order.
pub open spec fn literals(values: Seq<Seq<char>>) -> Seq<SegmentView> {
    values.map_values(|value: Seq<char>| SegmentView::Literal(value))
}

/// Literal segments match exactly the pieces they state, in order, and bind nothing.
pub proof fn law_literals_match_only_themselves(values: Seq<Seq<char>>, asked: Seq<Seq<char>>)
    ensures
        captured(literals(values), asked) is Some <==> asked == values,
        captured(literals(values), asked) is Some ==> captured(literals(values), asked) == Some(
            Seq::<Seq<char>>::empty(),
        ),
    decreases values.len(),
{
    if values.len() == 0 {
        assert(literals(values) =~= Seq::<SegmentView>::empty());
        if asked.len() == 0 {
            assert(asked =~= values);
        }
    } else {
        assert(literals(values)[0] == SegmentView::Literal(values[0]));
        assert(literals(values).drop_first() =~= literals(values.drop_first()));
        if asked.len() > 0 {
            law_literals_match_only_themselves(values.drop_first(), asked.drop_first());
            if asked == values {
                assert(asked.drop_first() =~= values.drop_first());
            }
            if asked[0] == values[0] && asked.drop_first() == values.drop_first() {
                assert(asked.len() == values.len());
                assert forall|i: int| 0 <= i < asked.len() implies asked[i] == values[i] by {
                    if i > 0 {
                        assert(asked[i] == asked.drop_first()[i - 1]);
                        assert(values[i] == values.drop_first()[i - 1]);
                    }
                }
                assert(asked =~= values);
            }
        }
    }
}

/// A tail binds one value, whatever is left of the path, and reading that value back as a path gives
/// the pieces it bound.
pub proof fn law_tail_binds_the_rest(name: Seq<char>, asked: Seq<Seq<char>>)
    requires
        forall|k: int| 0 <= k < asked.len() ==> #[trigger] asked[k].len() > 0 && !asked[k].contains('/'),
    ensures
        captured(seq![SegmentView::Tail(name)], asked) matches Some(bound) && bound.len() == 1 && pieces(
            bound[0],
            '/',
        ) == asked,
{
    law_pieces_of_joined(asked, '/');
}

} // verus!
