//! JSON text of request bodies.
//!
//! A body is written as compact JSON: an object is its members, separated by
//! commas, between braces, and a member that is not set is left out. The
//! names of the members are plain words and are written as they stand; every
//! other text goes through `serde_json`, which quotes and escapes it.

use crate::json::{json_literal, quote, text_views};
use crate::number::{decimal_text, integer_text, push_decimal, push_integer, Decimal};
use vstd::prelude::*;

verus! {

/// The parts, with a comma between each two.
pub open spec fn joined(parts: Seq<Seq<char>>) -> Seq<char>
    decreases parts.len(),
{
    if parts.len() == 0 {
        Seq::empty()
    } else if parts.len() == 1 {
        parts[0]
    } else {
        joined(parts.drop_last()) + seq![','] + parts.last()
    }
}

/// A JSON object with the given members.
pub open spec fn object_text(members: Seq<Seq<char>>) -> Seq<char> {
    seq!['{'] + joined(members) + seq!['}']
}

/// A JSON array with the given elements.
pub open spec fn array_text(items: Seq<Seq<char>>) -> Seq<char> {
    seq!['['] + joined(items) + seq![']']
}

/// A member of a JSON object: its name between quotes, a colon, its value.
pub open spec fn member_text(name: Seq<char>, value: Seq<char>) -> Seq<char> {
    seq!['"'] + name + seq!['"', ':'] + value
}

/// The member for a value that may not be set: one member, or none.
pub open spec fn optional_member(name: Seq<char>, value: Option<Seq<char>>) -> Seq<Seq<char>> {
    match value {
        Some(value) => seq![member_text(name, value)],
        None => Seq::empty(),
    }
}

/// A JSON array of string literals.
pub open spec fn literals_text(texts: Seq<Seq<char>>) -> Seq<char> {
    array_text(texts.map_values(|text: Seq<char>| json_literal(text)))
}

/// Adding a part to the joined parts puts a comma in front of it, unless it
/// is the first.
pub proof fn lemma_joined_push(parts: Seq<Seq<char>>, part: Seq<char>)
    ensures
        joined(parts.push(part)) == if parts.len() == 0 {
            part
        } else {
            joined(parts) + seq![','] + part
        },
{
    assert(parts.push(part).drop_last() =~= parts);
}

/// An object without members is a pair of braces, and an array without
/// elements a pair of brackets.
pub proof fn lemma_empty_texts()
    ensures
        object_text(Seq::empty()) == seq!['{', '}'],
        array_text(Seq::empty()) == seq!['[', ']'],
{
    assert(object_text(Seq::empty()) =~= seq!['{', '}']);
    assert(array_text(Seq::empty()) =~= seq!['[', ']']);
}

/// A JSON object or array that is being written.
pub(crate) struct Sequence {
    text: String,
    fresh: bool,
    opening: Ghost<char>,
    parts: Ghost<Seq<Seq<char>>>,
}

impl Sequence {
    pub(crate) closed spec fn well_formed(&self) -> bool {
        &&& self.text@ == seq![self.opening@] + joined(self.parts@)
        &&& self.fresh == (self.parts@.len() == 0)
    }

    pub(crate) closed spec fn opening(&self) -> char {
        self.opening@
    }

    pub(crate) closed spec fn parts(&self) -> Seq<Seq<char>> {
        self.parts@
    }

    /// Starts an object.
    pub(crate) fn object() -> (seq: Sequence)
        ensures
            seq.well_formed(),
            seq.opening() == '{',
            seq.parts() == Seq::<Seq<char>>::empty(),
    {
        proof {
            reveal_strlit("{");
        }
        let text = "{".to_owned();
        assert(text@ =~= seq!['{'] + joined(Seq::empty()));
        Sequence { text, fresh: true, opening: Ghost('{'), parts: Ghost(Seq::empty()) }
    }

    /// Starts an array.
    pub(crate) fn array() -> (seq: Sequence)
        ensures
            seq.well_formed(),
            seq.opening() == '[',
            seq.parts() == Seq::<Seq<char>>::empty(),
    {
        proof {
            reveal_strlit("[");
        }
        let text = "[".to_owned();
        assert(text@ =~= seq!['['] + joined(Seq::empty()));
        Sequence { text, fresh: true, opening: Ghost('['), parts: Ghost(Seq::empty()) }
    }

    fn separate(&mut self)
        requires
            old(self).well_formed(),
        ensures
            final(self).opening() == old(self).opening(),
            final(self).parts() == old(self).parts(),
            final(self).text@ == old(self).text@ + if old(self).parts().len() == 0 {
                Seq::<char>::empty()
            } else {
                seq![',']
            },
            final(self).fresh == old(self).fresh,
    {
        if !self.fresh {
            proof {
                reveal_strlit(",");
            }
            self.text.append(",");
            assert(self.text@ =~= old(self).text@ + seq![',']);
        } else {
            assert(self.text@ =~= old(self).text@ + Seq::<char>::empty());
        }
    }

    /// Adds an element.
    pub(crate) fn item(&mut self, item: &str)
        requires
            old(self).well_formed(),
        ensures
            final(self).well_formed(),
            final(self).opening() == old(self).opening(),
            final(self).parts() == old(self).parts().push(item@),
    {
        self.separate();
        self.text.append(item);
        self.fresh = false;
        proof {
            lemma_joined_push(old(self).parts@, item@);
            self.parts@ = old(self).parts@.push(item@);
            assert(self.text@ =~= seq![self.opening@] + joined(self.parts@));
        }
    }

    fn name(&mut self, name: &str)
        requires
            old(self).well_formed(),
        ensures
            final(self).opening() == old(self).opening(),
            final(self).parts() == old(self).parts(),
            final(self).text@ == old(self).text@ + (if old(self).parts().len() == 0 {
                Seq::<char>::empty()
            } else {
                seq![',']
            }) + member_text(name@, Seq::empty()),
    {
        proof {
            reveal_strlit("\"");
            reveal_strlit("\":");
        }
        self.separate();
        let ghost start = self.text@;
        self.text.append("\"");
        self.text.append(name);
        self.text.append("\":");
        assert(self.text@ =~= start + member_text(name@, Seq::empty()));
    }

    /// Adds a member whose value is written out already.
    pub(crate) fn member(&mut self, name: &str, value: &str)
        requires
            old(self).well_formed(),
        ensures
            final(self).well_formed(),
            final(self).opening() == old(self).opening(),
            final(self).parts() == old(self).parts().push(member_text(name@, value@)),
    {
        self.name(name);
        self.text.append(value);
        self.fresh = false;
        proof {
            let part = member_text(name@, value@);
            lemma_joined_push(old(self).parts@, part);
            self.parts@ = old(self).parts@.push(part);
            assert(self.text@ =~= seq![self.opening@] + joined(self.parts@));
        }
    }

    /// Adds a member whose value is a text.
    pub(crate) fn text_member(&mut self, name: &str, value: &str)
        requires
            old(self).well_formed(),
        ensures
            final(self).well_formed(),
            final(self).opening() == old(self).opening(),
            final(self).parts() == old(self).parts().push(
                member_text(name@, json_literal(value@)),
            ),
    {
        let literal = quote(value);
        self.member(name, literal.as_str());
    }

    /// Adds a member whose value is an integer.
    pub(crate) fn integer_member(&mut self, name: &str, value: i64)
        requires
            old(self).well_formed(),
        ensures
            final(self).well_formed(),
            final(self).opening() == old(self).opening(),
            final(self).parts() == old(self).parts().push(
                member_text(name@, integer_text(value as int)),
            ),
    {
        self.name(name);
        push_integer(&mut self.text, value);
        self.fresh = false;
        proof {
            let part = member_text(name@, integer_text(value as int));
            lemma_joined_push(old(self).parts@, part);
            self.parts@ = old(self).parts@.push(part);
            assert(self.text@ =~= seq![self.opening@] + joined(self.parts@));
        }
    }

    /// Adds a member whose value is a decimal number.
    pub(crate) fn decimal_member(&mut self, name: &str, value: Decimal)
        requires
            old(self).well_formed(),
        ensures
            final(self).well_formed(),
            final(self).opening() == old(self).opening(),
            final(self).parts() == old(self).parts().push(
                member_text(name@, decimal_text(value.mantissa as int, value.scale as nat)),
            ),
    {
        self.name(name);
        push_decimal(&mut self.text, value);
        self.fresh = false;
        proof {
            let part = member_text(name@, decimal_text(value.mantissa as int, value.scale as nat));
            lemma_joined_push(old(self).parts@, part);
            self.parts@ = old(self).parts@.push(part);
            assert(self.text@ =~= seq![self.opening@] + joined(self.parts@));
        }
    }

    /// Closes an object.
    pub(crate) fn end_object(self) -> (text: String)
        requires
            self.well_formed(),
            self.opening() == '{',
        ensures
            text@ == object_text(self.parts()),
    {
        proof {
            reveal_strlit("}");
        }
        let mut text = self.text;
        text.append("}");
        assert(text@ =~= object_text(self.parts@));
        text
    }

    /// Closes an array.
    pub(crate) fn end_array(self) -> (text: String)
        requires
            self.well_formed(),
            self.opening() == '[',
        ensures
            text@ == array_text(self.parts()),
    {
        proof {
            reveal_strlit("]");
        }
        let mut text = self.text;
        text.append("]");
        assert(text@ =~= array_text(self.parts@));
        text
    }
}

/// Writes texts as a JSON array of string literals.
pub fn write_literals(texts: &Vec<String>) -> (text: String)
    ensures
        text@ == literals_text(text_views(texts@)),
{
    let mut seq = Sequence::array();
    let ghost literals = text_views(texts@).map_values(|text: Seq<char>| json_literal(text));
    let mut i: usize = 0;
    while i < texts.len()
        invariant
            0 <= i <= texts.len(),
            seq.well_formed(),
            seq.opening() == '[',
            literals == text_views(texts@).map_values(|text: Seq<char>| json_literal(text)),
            seq.parts() == literals.take(i as int),
        decreases texts.len() - i,
    {
        let literal = quote(texts[i].as_str());
        seq.item(literal.as_str());
        assert(literals.take(i as int).push(literal@) =~= literals.take(i + 1));
        i += 1;
    }
    assert(literals.take(i as int) =~= literals);
    seq.end_array()
}

} // verus!
