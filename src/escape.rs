use vstd::prelude::*;

verus! {

/// The escape of one character that both markup languages share.
pub open spec fn common_char(c: char) -> Seq<char> {
    if c == '&' {
        "&amp;"@
    } else if c == '<' {
        "&lt;"@
    } else if c == '>' {
        "&gt;"@
    } else if c == '"' {
        "&quot;"@
    } else {
        seq![c]
    }
}

/// One character escaped for XML: the apostrophe as the named entity.
pub open spec fn xml_char(c: char) -> Seq<char> {
    if c == '\'' {
        "&apos;"@
    } else {
        common_char(c)
    }
}

/// One character escaped for HTML: the apostrophe as a numeric entity.
pub open spec fn html_char(c: char) -> Seq<char> {
    if c == '\'' {
        "&#x27;"@
    } else {
        common_char(c)
    }
}

pub open spec fn escape_common_text(s: Seq<char>) -> Seq<char>
    decreases s.len(),
{
    if s.len() == 0 {
        s
    } else {
        escape_common_text(s.drop_last()) + common_char(s.last())
    }
}

pub open spec fn escape_xml_text(s: Seq<char>) -> Seq<char>
    decreases s.len(),
{
    if s.len() == 0 {
        s
    } else {
        escape_xml_text(s.drop_last()) + xml_char(s.last())
    }
}

pub open spec fn escape_html_text(s: Seq<char>) -> Seq<char>
    decreases s.len(),
{
    if s.len() == 0 {
        s
    } else {
        escape_html_text(s.drop_last()) + html_char(s.last())
    }
}

/// Which apostrophe form an escape uses.
enum Apostrophe {
    Kept,
    Named,
    Numeric,
}

spec fn escaped_char(c: char, a: Apostrophe) -> Seq<char> {
    match a {
        Apostrophe::Kept => common_char(c),
        Apostrophe::Named => xml_char(c),
        Apostrophe::Numeric => html_char(c),
    }
}

spec fn escaped_text(s: Seq<char>, a: Apostrophe) -> Seq<char>
    decreases s.len(),
{
    if s.len() == 0 {
        s
    } else {
        escaped_text(s.drop_last(), a) + escaped_char(s.last(), a)
    }
}

proof fn lemma_escaped_text(s: Seq<char>, a: Apostrophe)
    ensures
        escaped_text(s, a) == match a {
            Apostrophe::Kept => escape_common_text(s),
            Apostrophe::Named => escape_xml_text(s),
            Apostrophe::Numeric => escape_html_text(s),
        },
    decreases s.len(),
{
    if s.len() > 0 {
        lemma_escaped_text(s.drop_last(), a);
    }
}

fn push_escaped(out: &mut String, s: &str, a: Apostrophe)
    ensures
        final(out)@ == old(out)@ + escaped_text(s@, a),
{
    let cs = crate::text::chars_of(s);
    let mut i: usize = 0;
    while i < cs.len()
        invariant
            cs@ == s@,
            i <= cs@.len(),
            out@ == old(out)@ + escaped_text(s@.take(i as int), a),
        decreases cs.len() - i,
    {
        proof {
            assert(s@.take(i + 1).drop_last() =~= s@.take(i as int));
        }
        let c = cs[i];
        if c == '&' {
            out.append("&amp;");
        } else if c == '<' {
            out.append("&lt;");
        } else if c == '>' {
            out.append("&gt;");
        } else if c == '"' {
            out.append("&quot;");
        } else if c == '\'' {
            match a {
                Apostrophe::Kept => crate::text::push_char(out, c),
                Apostrophe::Named => out.append("&apos;"),
                Apostrophe::Numeric => out.append("&#x27;"),
            }
        } else {
            crate::text::push_char(out, c);
        }
        assert(out@ =~= old(out)@ + escaped_text(s@.take(i + 1), a));
        i = i + 1;
    }
    assert(s@.take(s@.len() as int) =~= s@);
}

/// Escapes `&`, `<`, `>` and `"`.
pub fn escape_common(s: &str) -> (r: String)
    ensures
        r@ == escape_common_text(s@),
{
    let mut r = String::new();
    push_escaped(&mut r, s, Apostrophe::Kept);
    proof {
        lemma_escaped_text(s@, Apostrophe::Kept);
    }
    r
}

/// Escapes text for XML, the apostrophe as `&apos;`.
pub fn escape_xml(s: &str) -> (r: String)
    ensures
        r@ == escape_xml_text(s@),
{
    let mut r = String::new();
    push_escaped(&mut r, s, Apostrophe::Named);
    proof {
        lemma_escaped_text(s@, Apostrophe::Named);
    }
    r
}

/// Escapes text for HTML, the apostrophe as `&#x27;`.
pub fn escape_html(s: &str) -> (r: String)
    ensures
        r@ == escape_html_text(s@),
{
    let mut r = String::new();
    push_escaped(&mut r, s, Apostrophe::Numeric);
    proof {
        lemma_escaped_text(s@, Apostrophe::Numeric);
    }
    r
}

/// Appends `s` escaped for XML.
pub(crate) fn push_xml(out: &mut String, s: &str)
    ensures
        final(out)@ == old(out)@ + escape_xml_text(s@),
{
    push_escaped(out, s, Apostrophe::Named);
    proof {
        lemma_escaped_text(s@, Apostrophe::Named);
    }
}

/// Appends `s` escaped for HTML.
pub(crate) fn push_html(out: &mut String, s: &str)
    ensures
        final(out)@ == old(out)@ + escape_html_text(s@),
{
    push_escaped(out, s, Apostrophe::Numeric);
    proof {
        lemma_escaped_text(s@, Apostrophe::Numeric);
    }
}

} // verus!
