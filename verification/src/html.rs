//! A writer of HTML text into an owned buffer.  Each method appends exactly
//! the text its spec function renders; sending the finished buffer anywhere
//! is the caller's business.
use vstd::prelude::*;
use crate::text::push_str;

verus! {

/// The text of an opening tag without attributes.
pub open spec fn open_tag(name: Seq<char>) -> Seq<char> {
    "<"@ + name + ">"@
}

/// The text of one rendered attribute, with its leading space.
pub open spec fn attr_text(k: Seq<char>, v: Seq<char>) -> Seq<char> {
    " "@ + k + "=\""@ + v + "\""@
}

/// The text of a rendered attribute list, in order.
pub open spec fn attrs_text(attrs: Seq<(Seq<char>, Seq<char>)>) -> Seq<char>
    decreases attrs.len(),
{
    if attrs.len() == 0 {
        Seq::empty()
    } else {
        attrs_text(attrs.drop_last()) + attr_text(attrs.last().0, attrs.last().1)
    }
}

/// The text of an opening tag with its attributes.
pub open spec fn open_tag_attrs(name: Seq<char>, attrs: Seq<(Seq<char>, Seq<char>)>) -> Seq<
    char,
> {
    "<"@ + name + attrs_text(attrs) + ">"@
}

/// The text of a closing tag.
pub open spec fn close_tag(name: Seq<char>) -> Seq<char> {
    "</"@ + name + ">"@
}

/// An attribute slice seen as pairs of character sequences.
pub open spec fn attrs_model(attrs: Seq<(&str, &str)>) -> Seq<(Seq<char>, Seq<char>)> {
    attrs.map_values(|p: (&str, &str)| (p.0@, p.1@))
}

/// Accumulates HTML text; every method appends exactly what its contract
/// says and touches nothing already written.
pub struct HtmlWriter {
    buf: String,
}

impl HtmlWriter {
    /// Everything written so far.
    pub closed spec fn spec_buf(&self) -> Seq<char> {
        self.buf@
    }

    /// A writer with an empty buffer.
    pub fn new() -> (r: Self)
        ensures
            r.spec_buf() == Seq::<char>::empty(),
    {
        HtmlWriter { buf: String::new() }
    }

    /// Append an opening tag.
    pub fn start(&mut self, name: &str)
        ensures
            final(self).spec_buf() == old(self).spec_buf() + open_tag(name@),
    {
        push_str(&mut self.buf, "<");
        push_str(&mut self.buf, name);
        push_str(&mut self.buf, ">");
        proof {
            assert(self.buf@ =~= old(self).buf@ + open_tag(name@));
        }
    }

    /// Append an opening tag with the given attributes, in order.
    pub fn start_attr(&mut self, name: &str, attr: &[(&str, &str)])
        ensures
            final(self).spec_buf() == old(self).spec_buf() + open_tag_attrs(
                name@,
                attrs_model(attr@),
            ),
    {
        push_str(&mut self.buf, "<");
        push_str(&mut self.buf, name);
        let ghost head = old(self).buf@ + "<"@ + name@;
        proof {
            assert(self.buf@ =~= head);
        }
        let mut i: usize = 0;
        while i < attr.len()
            invariant
                i <= attr@.len(),
                self.buf@ == head + attrs_text(attrs_model(attr@.subrange(0, i as int))),
            decreases attr@.len() - i,
        {
            let ghost done = attrs_model(attr@.subrange(0, i as int));
            let (k, v) = attr[i];
            push_str(&mut self.buf, " ");
            push_str(&mut self.buf, k);
            push_str(&mut self.buf, "=\"");
            push_str(&mut self.buf, v);
            push_str(&mut self.buf, "\"");
            i = i + 1;
            proof {
                let now = attrs_model(attr@.subrange(0, i as int));
                assert(now.drop_last() =~= done);
                assert(now.last() == (attr@[i - 1].0@, attr@[i - 1].1@));
                assert(self.buf@ =~= head + (attrs_text(done) + attr_text(
                    attr@[i - 1].0@,
                    attr@[i - 1].1@,
                )));
                assert(self.buf@ =~= head + attrs_text(now));
            }
        }
        push_str(&mut self.buf, ">");
        proof {
            assert(attr@.subrange(0, attr@.len() as int) =~= attr@);
            assert(self.buf@ =~= old(self).buf@ + open_tag_attrs(name@, attrs_model(attr@)));
        }
    }

    /// Append a closing tag.
    pub fn end(&mut self, name: &str)
        ensures
            final(self).spec_buf() == old(self).spec_buf() + close_tag(name@),
    {
        push_str(&mut self.buf, "</");
        push_str(&mut self.buf, name);
        push_str(&mut self.buf, ">");
        proof {
            assert(self.buf@ =~= old(self).buf@ + close_tag(name@));
        }
    }

    /// Append the HTML doctype preamble.
    pub fn doctype(&mut self)
        ensures
            final(self).spec_buf() == old(self).spec_buf() + "<!DOCTYPE html>"@,
    {
        push_str(&mut self.buf, "<!DOCTYPE html>");
    }

    /// Append text as it stands.
    pub fn raw(&mut self, text: &str)
        ensures
            final(self).spec_buf() == old(self).spec_buf() + text@,
    {
        push_str(&mut self.buf, text);
    }

    /// Hand over everything written.
    pub fn into_string(self) -> (r: String)
        ensures
            r@ == self.spec_buf(),
    {
        self.buf
    }
}

} // verus!
