//! Reading a shape out of a layout: what the `serde` attributes already on a type state.
//!
//! A rename states which words a member is named by, `flatten` states a merge, `skip` states that a
//! member is not written, and a tagging attribute states which encoding of a choice is meant. What
//! the attributes say is handed over as plain values; this is what the shape then is.

use crate::shape::algebra::{views_of, words_view, FieldAlg, ShapeAlg, Words};
use crate::shape::derived::{
    adjacent_alternative, alternative_shapes, external_alternative, internal_alternative,
    names_choice, ShapeExt, ShapeTaggedExt,
};
use vstd::prelude::*;

verus! {

/// How a choice states which alternative a value carries.
#[derive(Debug, Clone, Copy)]
pub enum Tagging<'w> {
    /// One object per alternative, keyed by its name.
    External,
    /// The alternative's name under this member, beside its own members.
    Internal(Words<'w>),
    /// The alternative's name under the first member and its value under the second.
    Adjacent(Words<'w>, Words<'w>),
    /// The alternative's value alone.
    Untagged,
}

/// Which encoding of a choice the attributes state: `untagged` wins; otherwise a tag with a content
/// member is adjacent, a tag alone is internal, and no tag is external.
pub fn tagging<'w>(untagged: bool, tag: Option<Words<'w>>, content: Option<Words<'w>>) -> (r: Tagging<'w>)
    ensures
        untagged ==> r is Untagged,
        !untagged ==> match (tag, content) {
            (Some(tag), Some(content)) => r == Tagging::Adjacent(tag, content),
            (Some(tag), None) => r == Tagging::Internal(tag),
            (None, _) => r is External,
        },
{
    if untagged {
        Tagging::Untagged
    } else {
        match (tag, content) {
            (Some(tag), Some(content)) => Tagging::Adjacent(tag, content),
            (Some(tag), None) => Tagging::Internal(tag),
            (None, _) => Tagging::External,
        }
    }
}

/// What an alternative of a choice holds, as its layout states it.
#[derive(Debug)]
pub enum Held<T> {
    /// Nothing: the alternative is its name alone.
    Nothing,
    /// One value, of this shape.
    One(T),
    /// Named members, or more than one value, which an alternative cannot state as one shape.
    Several,
}

/// One alternative of a choice: the words it is named by, and what it holds.
#[derive(Debug)]
pub struct AlternativeLayout<'w, T> {
    /// The words the alternative is named by.
    pub words: Words<'w>,
    /// What the alternative holds.
    pub held: Held<T>,
}

/// Why a layout states no shape.
#[derive(Debug, Clone, Copy, PartialEq, Eq, Structural)]
pub enum LayoutRefusal {
    /// The layout has type parameters; a generic shape is stated as a declaration instead.
    Generic,
    /// The layout is a union, which states no shape.
    Union,
    /// The layout is a product whose members have no names.
    UnnamedMembers,
    /// An alternative holds named members or more than one value.
    SeveralHeld,
}

/// Whether every alternative is its name alone.
pub open spec fn names_only<'w, T>(alternatives: Seq<AlternativeLayout<'w, T>>) -> bool {
    forall|i: int| 0 <= i < alternatives.len() ==> (#[trigger] alternatives[i]).held is Nothing
}

/// Whether some alternative holds what cannot be stated as one shape.
pub open spec fn holds_several<'w, T>(alternatives: Seq<AlternativeLayout<'w, T>>) -> bool {
    exists|i: int| 0 <= i < alternatives.len() && (#[trigger] alternatives[i]).held is Several
}

/// The words each alternative is named by, in order.
pub open spec fn alternative_names<'w, T>(alternatives: Seq<AlternativeLayout<'w, T>>) -> Seq<Words<'w>> {
    alternatives.map_values(|alternative: AlternativeLayout<'w, T>| alternative.words)
}

/// The shape an alternative holds: the unit where it holds nothing.
pub open spec fn held_shape<A: ShapeAlg>(alg: &A, held: Held<A::Ty>) -> <A::Ty as View>::V {
    match held {
        Held::One(shape) => shape@,
        _ => alg.spec_unit(),
    }
}

/// How one alternative is encoded under a tagging.
pub open spec fn alternative_stated<'w, A: ShapeAlg + FieldAlg>(
    alg: &A,
    tagging: Tagging<'w>,
    words: Words<'w>,
    shape: <A::Ty as View>::V,
) -> <A::Ty as View>::V {
    match tagging {
        Tagging::External => alg.spec_product(seq![alg.spec_field(words_view(words), shape)]),
        Tagging::Internal(tag) => alg.spec_product(
            seq![
                alg.spec_field(words_view(tag), alg.spec_name_word(words_view(words))),
                alg.spec_merge(shape),
            ],
        ),
        Tagging::Adjacent(tag, content) => alg.spec_product(
            seq![
                alg.spec_field(words_view(tag), alg.spec_name_word(words_view(words))),
                alg.spec_field(words_view(content), shape),
            ],
        ),
        Tagging::Untagged => shape,
    }
}

/// The choice a set of alternatives states under a tagging, each holding a shape.
pub open spec fn choice_stated<'w, A: ShapeAlg + FieldAlg>(
    alg: &A,
    tagging: Tagging<'w>,
    alternatives: Seq<AlternativeLayout<'w, A::Ty>>,
) -> <A::Ty as View>::V {
    alg.spec_choice(
        alternatives.map_values(
            |alternative: AlternativeLayout<'w, A::Ty>|
                alternative_stated(alg, tagging, alternative.words, held_shape(alg, alternative.held)),
        ),
    )
}

/// The choice a set of alternatives states: where every alternative is its name alone, a choice
/// between the names, whatever the tagging; otherwise, where no alternative holds more than one
/// shape, the choice under the encoding the attributes state; and none where one does.
pub fn choice_of<'w, A: ShapeAlg + FieldAlg>(
    alg: &A,
    tagging: Tagging<'w>,
    alternatives: Vec<AlternativeLayout<'w, A::Ty>>,
) -> (r: Result<A::Ty, LayoutRefusal>)
    ensures
        names_only(alternatives@) ==> (r matches Ok(shape) && shape@ == names_choice(
            alg,
            alternative_names(alternatives@),
        )),
        !names_only(alternatives@) && holds_several(alternatives@) ==> r == Err::<A::Ty, LayoutRefusal>(
            LayoutRefusal::SeveralHeld,
        ),
        !names_only(alternatives@) && !holds_several(alternatives@) ==> (r matches Ok(shape) && shape@
            == choice_stated(alg, tagging, alternatives@)),
{
    let ghost all = alternatives@;
    let mut named_only = true;
    let mut index: usize = 0;
    while index < alternatives.len()
        invariant
            all == alternatives@,
            index <= all.len(),
            named_only <==> forall|i: int| 0 <= i < index ==> (#[trigger] all[i]).held is Nothing,
        decreases all.len() - index,
    {
        match alternatives[index].held {
            Held::Nothing => {},
            _ => {
                named_only = false;
            },
        }
        index = index + 1;
    }
    if named_only {
        let mut names: Vec<Words<'w>> = Vec::new();
        for alternative in it: alternatives.into_iter()
            invariant
                it.seq() == all,
                it.index() <= all.len(),
                names@ == alternative_names(all.take(it.index() as int)),
        {
            let ghost at = it.index() as int;
            assert(alternative == all[at]);
            names.push(alternative.words);
            proof {
                assert(alternative_names(all.take(at + 1)) =~= alternative_names(all.take(at)).push(
                    alternative.words,
                ));
            }
        }
        proof {
            assert(all.take(all.len() as int) =~= all);
        }
        return Ok(alg.sum_of_names(names));
    }
    let mut pairs: Vec<(Words<'w>, A::Ty)> = Vec::new();
    for alternative in it: alternatives.into_iter()
        invariant
            it.seq() == all,
            it.index() <= all.len(),
            pairs@.len() == it.index(),
            forall|i: int| 0 <= i < it.index() ==> (#[trigger] all[i]).held !is Several,
            forall|i: int|
                0 <= i < it.index() ==> (#[trigger] pairs@[i]).0 == all[i].words && pairs@[i].1@
                    == held_shape(alg, all[i].held),
    {
        let ghost at = it.index() as int;
        assert(alternative == all[at]);
        let AlternativeLayout { words, held } = alternative;
        match held {
            Held::Nothing => {
                pairs.push((words, alg.unit()));
            },
            Held::One(shape) => {
                pairs.push((words, shape));
            },
            Held::Several => {
                proof {
                    assert(all[at].held is Several);
                    assert(holds_several(all));
                }
                return Err(LayoutRefusal::SeveralHeld);
            },
        }
    }
    let ghost stated = pairs@;
    let ghost encoded = all.map_values(
        |alternative: AlternativeLayout<'w, A::Ty>|
            alternative_stated(alg, tagging, alternative.words, held_shape(alg, alternative.held)),
    );
    assert(!holds_several(all));
    let r = match tagging {
        Tagging::External => {
            let r = alg.sum_external(pairs);
            proof {
                assert(stated.map_values(
                    |alternative: (Words<'w>, A::Ty)| external_alternative(alg, alternative),
                ) =~= encoded);
            }
            r
        },
        Tagging::Internal(tag) => {
            let r = alg.sum_internal(tag, pairs);
            proof {
                assert(stated.map_values(
                    |alternative: (Words<'w>, A::Ty)| internal_alternative(alg, tag, alternative),
                ) =~= encoded);
            }
            r
        },
        Tagging::Adjacent(tag, content) => {
            let r = alg.sum_adjacent(tag, content, pairs);
            proof {
                assert(stated.map_values(
                    |alternative: (Words<'w>, A::Ty)| adjacent_alternative(alg, tag, content, alternative),
                ) =~= encoded);
            }
            r
        },
        Tagging::Untagged => {
            let r = alg.sum_untagged(pairs);
            proof {
                assert(alternative_shapes(stated) =~= encoded);
            }
            r
        },
    };
    Ok(r)
}

/// One member of a layout, as its attributes state it.
pub struct MemberLayout<'w, T> {
    /// The words the member is named by.
    pub words: Words<'w>,
    /// The shape of what the member holds.
    pub shape: T,
    /// Whether the member is not written at all.
    pub skipped: bool,
    /// Whether the member's own members are written as the product's.
    pub merged: bool,
}

/// The members a product states: every member not skipped, in order, a merged one as a merge and
/// any other under its name.
pub open spec fn members_stated<'w, A: ShapeAlg + FieldAlg>(
    alg: &A,
    members: Seq<MemberLayout<'w, A::Ty>>,
) -> Seq<<A::Field as View>::V>
    decreases members.len(),
{
    if members.len() == 0 {
        Seq::empty()
    } else {
        let before = members_stated(alg, members.drop_last());
        let member = members.last();
        if member.skipped {
            before
        } else if member.merged {
            before.push(alg.spec_merge(member.shape@))
        } else {
            before.push(alg.spec_field(words_view(member.words), member.shape@))
        }
    }
}

/// The product a layout's members state.
pub fn product_of<'w, A: ShapeAlg + FieldAlg>(alg: &A, members: Vec<MemberLayout<'w, A::Ty>>) -> (r:
    A::Ty)
    ensures
        r@ == alg.spec_product(members_stated(alg, members@)),
{
    let ghost all = members@;
    let mut stated: Vec<A::Field> = Vec::new();
    for member in it: members.into_iter()
        invariant
            all == members@,
            it.seq() == all,
            it.index() <= all.len(),
            views_of(stated@) == members_stated(alg, all.take(it.index() as int)),
    {
        let ghost index = it.index() as int;
        assert(member == all[index]);
        proof {
            assert(all.take(index + 1).drop_last() =~= all.take(index));
        }
        let MemberLayout { words, shape, skipped, merged } = member;
        if !skipped {
            let field = if merged {
                alg.merge(shape)
            } else {
                alg.field(words, shape)
            };
            let ghost before = stated@;
            stated.push(field);
            proof {
                assert(views_of(stated@) =~= views_of(before).push(field@));
            }
        }
    }
    proof {
        assert(all.take(all.len() as int) =~= all);
    }
    alg.product(stated)
}

/// The shape a layout states: its body, under its name.
pub fn layout_shape<A: ShapeAlg>(alg: &A, words: Words<'_>, body: A::Ty) -> (r: A::Ty)
    ensures
        r@ == alg.spec_named(words_view(words), body@),
{
    alg.named(words, body)
}

/// What a layout is made of, as its attributes state it.
pub enum LayoutBody<'w, T> {
    /// A product of named members.
    Members(Vec<MemberLayout<'w, T>>),
    /// A product whose members have no names: a newtype or a tuple.
    Unnamed,
    /// A choice between alternatives, under the encoding its attributes state.
    Alternatives(Tagging<'w>, Vec<AlternativeLayout<'w, T>>),
    /// A union.
    Union,
}

/// The shape a layout states, under its name: a layout with type parameters states none, and
/// neither does a union; a product states its named members, and a choice its alternatives.
pub fn layout_of<'w, A: ShapeAlg + FieldAlg>(
    alg: &A,
    generic: bool,
    words: Words<'w>,
    body: LayoutBody<'w, A::Ty>,
) -> (r: Result<A::Ty, LayoutRefusal>)
    ensures
        generic ==> r == Err::<A::Ty, LayoutRefusal>(LayoutRefusal::Generic),
        !generic ==> match body {
            LayoutBody::Union => r == Err::<A::Ty, LayoutRefusal>(LayoutRefusal::Union),
            LayoutBody::Unnamed => r == Err::<A::Ty, LayoutRefusal>(LayoutRefusal::UnnamedMembers),
            LayoutBody::Members(members) => (r matches Ok(shape) && shape@ == alg.spec_named(
                words_view(words),
                alg.spec_product(members_stated(alg, members@)),
            )),
            LayoutBody::Alternatives(tagging, alternatives) => {
                &&& names_only(alternatives@) ==> (r matches Ok(shape) && shape@ == alg.spec_named(
                    words_view(words),
                    names_choice(alg, alternative_names(alternatives@)),
                ))
                &&& !names_only(alternatives@) && holds_several(alternatives@) ==> r == Err::<
                    A::Ty,
                    LayoutRefusal,
                >(LayoutRefusal::SeveralHeld)
                &&& !names_only(alternatives@) && !holds_several(alternatives@) ==> (r matches Ok(
                    shape,
                ) && shape@ == alg.spec_named(
                    words_view(words),
                    choice_stated(alg, tagging, alternatives@),
                ))
            },
        },
{
    if generic {
        return Err(LayoutRefusal::Generic);
    }
    let stated = match body {
        LayoutBody::Members(members) => product_of(alg, members),
        LayoutBody::Alternatives(tagging, alternatives) => match choice_of(alg, tagging, alternatives) {
            Ok(choice) => choice,
            Err(refusal) => {
                return Err(refusal);
            },
        },
        LayoutBody::Unnamed => {
            return Err(LayoutRefusal::UnnamedMembers);
        },
        LayoutBody::Union => {
            return Err(LayoutRefusal::Union);
        },
    };
    Ok(layout_shape(alg, words, stated))
}

} // verus!
