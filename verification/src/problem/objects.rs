//! The objects of a problem, each with the type its group was given.

use vstd::prelude::*;
use crate::problem::token::{
    lexeme_string, lexeme_text, next_token, quote, quoted, scan, stop, stopped, Kind, Token,
};
use crate::shared::{prepend, strings, Fail, Span};

verus! {

/// An object and the type it was declared with, if any.
#[derive(Debug, PartialEq, Eq, Clone)]
pub struct Object {
    pub name: String,
    pub typename: Option<String>,
}

/// A row of objects.
pub type Objects = Vec<Object>;

/// What an `Object` holds, as text.
pub struct ObjectView {
    pub name: Seq<char>,
    pub typename: Option<Seq<char>>,
}

/// The view of an optional string.
pub open spec fn optional(v: Option<String>) -> Option<Seq<char>> {
    match v {
        Some(t) => Some(t@),
        None => None,
    }
}

impl View for Object {
    type V = ObjectView;

    open spec fn view(&self) -> ObjectView {
        ObjectView { name: self.name@, typename: optional(self.typename) }
    }
}

/// The views of a sequence of objects.
pub open spec fn object_views(v: Seq<Object>) -> Seq<ObjectView> {
    Seq::new(v.len(), |i: int| v[i]@)
}

/// One object per name, all with the same type.
pub open spec fn group(names: Seq<Seq<char>>, typename: Option<Seq<char>>) -> Seq<ObjectView> {
    Seq::new(names.len(), |i: int| ObjectView { name: names[i], typename })
}

/// The objects from `pos` up to the parenthesis that closes the section,
/// which is consumed. `pending` holds the names read since the last type;
/// `awaiting` says that a `-` was read and its type has not come yet. A name
/// that follows `-` types the pending names; names left at the end have no
/// type; a `-` left without its type is an error.
pub open spec fn objects_from(
    s: Seq<u8>,
    pos: int,
    pending: Seq<Seq<char>>,
    awaiting: bool,
) -> Result<(Seq<ObjectView>, int), Fail>
    decreases s.len() - pos,
{
    let l = scan(s, pos);
    let next = l.span.end as int;
    match l.kind {
        Kind::End => Err(stop(l)),
        Kind::Malformed => Err(("error"@, l.span)),
        Kind::Found(Token::RParen) => if awaiting {
            Err(("errant type separator"@, l.span))
        } else {
            Ok((group(pending, None), next))
        },
        Kind::Found(Token::Name) => if !(pos < next <= s.len()) {
            Err(stop(l))
        } else if awaiting {
            prepend(
                group(pending, Some(lexeme_text(s, l))),
                objects_from(s, next, Seq::empty(), false),
            )
        } else {
            objects_from(s, next, pending.push(lexeme_text(s, l)), false)
        },
        Kind::Found(Token::TypeSeparator) => if !(pos < next <= s.len()) {
            Err(stop(l))
        } else {
            objects_from(s, next, pending, true)
        },
        Kind::Found(_) => Err((quoted("unexpected token '"@, s, l), l.span)),
    }
}

/// The objects section behind its tag.
pub open spec fn objects(s: Seq<u8>, pos: int) -> Result<(Seq<ObjectView>, int), Fail> {
    objects_from(s, pos, Seq::empty(), false)
}

/// Moves the pending names into `done`, each with the given type.
pub fn flush(done: &mut Vec<Object>, pending: Vec<String>, given: Option<String>)
    ensures
        object_views(final(done)@) == object_views(old(done)@) + group(
            strings(pending@),
            optional(given),
        ),
{
    let mut i: usize = 0;
    while i < pending.len()
        invariant
            0 <= i <= pending@.len(),
            object_views(done@) == object_views(old(done)@) + group(
                strings(pending@),
                optional(given),
            ).take(i as int),
        decreases pending@.len() - i,
    {
        let ghost before = done@;
        let name = pending[i].clone();
        let ty = match &given {
            Some(t) => Some(t.clone()),
            None => None,
        };
        done.push(Object { name, typename: ty });
        i += 1;
        proof {
            let all = group(strings(pending@), optional(given));
            assert(object_views(done@) =~= object_views(before).push(all[i - 1]));
            assert(all.take(i as int) =~= all.take(i - 1).push(all[i - 1]));
            assert(object_views(done@) =~= object_views(old(done)@) + all.take(i as int));
        }
    }
    proof {
        let all = group(strings(pending@), optional(given));
        assert(all.take(i as int) =~= all);
    }
}

/// Parses the objects section behind its tag.
pub fn parse_objects(input: &[u8], pos: usize) -> (out: Result<(Objects, usize), (String, Span)>)
    requires
        pos <= input@.len(),
    ensures
        out matches Ok(r) ==> objects(input@, pos as int) == Ok::<_, Fail>(
            (object_views(r.0@), r.1 as int),
        ) && pos < r.1 <= input@.len(),
        out matches Err(e) ==> objects(input@, pos as int) == Err::<(Seq<ObjectView>, int), _>(
            (e.0@, e.1),
        ),
{
    let mut done: Vec<Object> = Vec::new();
    let mut pending: Vec<String> = Vec::new();
    let mut awaiting = false;
    let mut cur: usize = pos;
    proof {
        assert(strings(pending@) =~= Seq::<Seq<char>>::empty());
    }
    loop
        invariant
            pos <= cur <= input@.len(),
            objects(input@, pos as int) == prepend(
                object_views(done@),
                objects_from(input@, cur as int, strings(pending@), awaiting),
            ),
        decreases input@.len() - cur,
    {
        let l = next_token(input, cur);
        match l.kind {
            Kind::End => {
                return Err(stopped(l));
            },
            Kind::Malformed => {
                return Err(("error".to_owned(), l.span));
            },
            Kind::Found(Token::RParen) => {
                if awaiting {
                    return Err(("errant type separator".to_owned(), l.span));
                }
                flush(&mut done, pending, None);
                return Ok((done, l.span.end));
            },
            Kind::Found(Token::Name) => {
                let name = lexeme_string(input, l);
                if awaiting {
                    proof {
                        let front = group(strings(pending@), Some(name@));
                        if let Ok((more, stop)) = objects_from(
                            input@,
                            l.span.end as int,
                            Seq::empty(),
                            false,
                        ) {
                            assert((object_views(done@) + front) + more =~= object_views(done@)
                                + (front + more));
                        }
                    }
                    flush(&mut done, pending, Some(name));
                    pending = Vec::new();
                    awaiting = false;
                    proof {
                        assert(strings(pending@) =~= Seq::<Seq<char>>::empty());
                    }
                } else {
                    proof {
                        assert(strings(pending@.push(name)) =~= strings(pending@).push(name@));
                    }
                    pending.push(name);
                }
                cur = l.span.end;
            },
            Kind::Found(Token::TypeSeparator) => {
                awaiting = true;
                cur = l.span.end;
            },
            Kind::Found(_) => {
                return Err((quote("unexpected token '", input, l), l.span));
            },
        }
    }
}

} // verus!
