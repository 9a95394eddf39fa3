use vstd::prelude::*;
use vstd::string::StringSliceAdditionalSpecFns;

verus! {

/// The decimal digits of `n`, in ASCII.
pub open spec fn decimal(n: nat) -> Seq<u8>
    decreases n,
{
    if n < 10 {
        seq![(48 + n) as u8]
    } else {
        decimal(n / 10).push((48 + n % 10) as u8)
    }
}

/// Appends the decimal digits of `n` to `buf`.
pub fn write_usize(buf: &mut Vec<u8>, n: usize)
    ensures
        final(buf)@ == old(buf)@ + decimal(n as nat),
    decreases n,
{
    if n >= 10 {
        write_usize(buf, n / 10);
    }
    buf.push(48u8 + (n % 10) as u8);
    proof {
        assert(final(buf)@ =~= old(buf)@ + decimal(n as nat));
    }
}

/// What a byte of text becomes in HTML: `<` and `&` as character
/// references, a line feed as a line break, any other byte as it is.
pub open spec fn escaped_text_byte(b: u8) -> Seq<u8> {
    if b == 10u8 {
        "<br>".spec_bytes()
    } else if b == 60u8 {
        "&lt;".spec_bytes()
    } else if b == 38u8 {
        "&amp;".spec_bytes()
    } else {
        seq![b]
    }
}

/// What a byte of a double-quoted attribute value becomes in HTML: `"` and
/// `&` as character references, any other byte as it is.
pub open spec fn escaped_attribute_byte(b: u8) -> Seq<u8> {
    if b == 34u8 {
        "&quot;".spec_bytes()
    } else if b == 38u8 {
        "&amp;".spec_bytes()
    } else {
        seq![b]
    }
}

/// Text escaped for HTML, byte by byte.
pub open spec fn escaped_text(s: Seq<u8>) -> Seq<u8>
    decreases s.len(),
{
    if s.len() == 0 {
        Seq::empty()
    } else {
        escaped_text(s.drop_last()) + escaped_text_byte(s.last())
    }
}

/// A double-quoted attribute value escaped for HTML, byte by byte.
pub open spec fn escaped_attribute(s: Seq<u8>) -> Seq<u8>
    decreases s.len(),
{
    if s.len() == 0 {
        Seq::empty()
    } else {
        escaped_attribute(s.drop_last()) + escaped_attribute_byte(s.last())
    }
}

/// The bytes of the character references that the escaping writes.
proof fn lemma_reference_bytes()
    ensures
        "&lt;".spec_bytes() == seq![38u8, 108u8, 116u8, 59u8],
        "&amp;".spec_bytes() == seq![38u8, 97u8, 109u8, 112u8, 59u8],
        "&quot;".spec_bytes() == seq![38u8, 113u8, 117u8, 111u8, 116u8, 59u8],
{
    reveal_strlit("&lt;");
    reveal_strlit("&amp;");
    reveal_strlit("&quot;");
    vstd::string::is_ascii_spec_bytes("&lt;");
    vstd::string::is_ascii_spec_bytes("&amp;");
    vstd::string::is_ascii_spec_bytes("&quot;");
    assert("&lt;".spec_bytes() =~= seq![38u8, 108u8, 116u8, 59u8]);
    assert("&amp;".spec_bytes() =~= seq![38u8, 97u8, 109u8, 112u8, 59u8]);
    assert("&quot;".spec_bytes() =~= seq![38u8, 113u8, 117u8, 111u8, 116u8, 59u8]);
}

/// An escaped attribute value holds no `"`: whatever the value, it cannot
/// end the attribute early.
pub proof fn lemma_escaped_attribute_has_no_quote(s: Seq<u8>)
    ensures
        forall|i: int| 0 <= i < escaped_attribute(s).len() ==> #[trigger] escaped_attribute(s)[i] != 34u8,
    decreases s.len(),
{
    if s.len() > 0 {
        lemma_escaped_attribute_has_no_quote(s.drop_last());
        lemma_reference_bytes();
        let a = escaped_attribute(s.drop_last());
        let b = escaped_attribute_byte(s.last());
        assert forall|i: int| 0 <= i < (a + b).len() implies #[trigger] (a + b)[i] != 34u8 by {
            if i >= a.len() {
                assert((a + b)[i] == b[i - a.len()]);
            } else {
                assert((a + b)[i] == a[i]);
            }
        }
    }
}

/// Escaped text with no line feed holds no `<`: whatever the text, it
/// cannot open a tag.
pub proof fn lemma_escaped_text_has_no_tag_opening(s: Seq<u8>)
    requires
        forall|i: int| 0 <= i < s.len() ==> #[trigger] s[i] != 10u8,
    ensures
        forall|i: int| 0 <= i < escaped_text(s).len() ==> #[trigger] escaped_text(s)[i] != 60u8,
    decreases s.len(),
{
    if s.len() > 0 {
        assert forall|i: int| 0 <= i < s.drop_last().len() implies #[trigger] s.drop_last()[i]
            != 10u8 by {
            assert(s.drop_last()[i] == s[i]);
        }
        lemma_escaped_text_has_no_tag_opening(s.drop_last());
        lemma_reference_bytes();
        assert(s.last() == s[s.len() - 1]);
        let a = escaped_text(s.drop_last());
        let b = escaped_text_byte(s.last());
        assert forall|i: int| 0 <= i < (a + b).len() implies #[trigger] (a + b)[i] != 60u8 by {
            if i >= a.len() {
                assert((a + b)[i] == b[i - a.len()]);
            } else {
                assert((a + b)[i] == a[i]);
            }
        }
    }
}

/// Appends `input` to `buf` as HTML text, where its line feeds break lines.
pub fn render_escaped_html_text(buf: &mut Vec<u8>, input: &[u8])
    ensures
        final(buf)@ == old(buf)@ + escaped_text(input@),
{
    let mut i: usize = 0;
    while i < input.len()
        invariant
            i <= input@.len(),
            buf@ == old(buf)@ + escaped_text(input@.subrange(0, i as int)),
        decreases input@.len() - i,
    {
        let ghost before = buf@;
        let b = input[i];
        if b == 10u8 {
            buf.extend_from_slice("<br>".as_bytes());
        } else if b == 60u8 {
            buf.extend_from_slice("&lt;".as_bytes());
        } else if b == 38u8 {
            buf.extend_from_slice("&amp;".as_bytes());
        } else {
            buf.push(b);
        }
        proof {
            let s = input@.subrange(0, i + 1);
            assert(s.drop_last() =~= input@.subrange(0, i as int));
            assert(buf@ =~= before + escaped_text_byte(b));
        }
        i = i + 1;
    }
    proof {
        assert(input@.subrange(0, i as int) =~= input@);
    }
}

/// Appends `input` to `buf` as the value of a double-quoted HTML attribute.
pub fn render_escaped_double_quoted_attribute_value(buf: &mut Vec<u8>, input: &[u8])
    ensures
        final(buf)@ == old(buf)@ + escaped_attribute(input@),
{
    let mut i: usize = 0;
    while i < input.len()
        invariant
            i <= input@.len(),
            buf@ == old(buf)@ + escaped_attribute(input@.subrange(0, i as int)),
        decreases input@.len() - i,
    {
        let ghost before = buf@;
        let b = input[i];
        if b == 34u8 {
            buf.extend_from_slice("&quot;".as_bytes());
        } else if b == 38u8 {
            buf.extend_from_slice("&amp;".as_bytes());
        } else {
            buf.push(b);
        }
        proof {
            let s = input@.subrange(0, i + 1);
            assert(s.drop_last() =~= input@.subrange(0, i as int));
            assert(buf@ =~= before + escaped_attribute_byte(b));
        }
        i = i + 1;
    }
    proof {
        assert(input@.subrange(0, i as int) =~= input@);
    }
}

/// The attributes, each as ` name="value"` with the value escaped.
pub open spec fn attributes(attrs: Seq<(Seq<u8>, Seq<u8>)>) -> Seq<u8>
    decreases attrs.len(),
{
    if attrs.len() == 0 {
        Seq::empty()
    } else {
        attributes(attrs.drop_last()) + " ".spec_bytes() + attrs.last().0 + "=\"".spec_bytes()
            + escaped_attribute(attrs.last().1) + "\"".spec_bytes()
    }
}

/// The attributes as sequences of bytes.
pub open spec fn attribute_views(attrs: Seq<(&[u8], &[u8])>) -> Seq<(Seq<u8>, Seq<u8>)> {
    attrs.map_values(|a: (&[u8], &[u8])| (a.0@, a.1@))
}

/// An opening tag with its attributes.
pub open spec fn opening_tag(tag: Seq<u8>, attrs: Seq<(Seq<u8>, Seq<u8>)>) -> Seq<u8> {
    "<".spec_bytes() + tag + attributes(attrs) + ">".spec_bytes()
}

/// A closing tag.
pub open spec fn closing_tag(tag: Seq<u8>) -> Seq<u8> {
    "</".spec_bytes() + tag + ">".spec_bytes()
}

/// Appends the opening tag of `tag` with the attributes `attrs` to `buf`.
pub fn render_eopening_tag(buf: &mut Vec<u8>, tag: &[u8], attrs: &[(&[u8], &[u8])])
    ensures
        final(buf)@ == old(buf)@ + opening_tag(tag@, attribute_views(attrs@)),
{
    buf.extend_from_slice("<".as_bytes());
    buf.extend_from_slice(tag);
    let ghost start = buf@;
    let mut i: usize = 0;
    while i < attrs.len()
        invariant
            i <= attrs@.len(),
            buf@ == start + attributes(attribute_views(attrs@.subrange(0, i as int))),
        decreases attrs@.len() - i,
    {
        let ghost before = buf@;
        let (name, value) = attrs[i];
        buf.extend_from_slice(" ".as_bytes());
        buf.extend_from_slice(name);
        buf.extend_from_slice("=\"".as_bytes());
        render_escaped_double_quoted_attribute_value(buf, value);
        buf.extend_from_slice("\"".as_bytes());
        proof {
            let s = attribute_views(attrs@.subrange(0, i + 1));
            assert(s.drop_last() =~= attribute_views(attrs@.subrange(0, i as int)));
            assert(s.last() == (name@, value@));
            assert(buf@ =~= start + attributes(s));
        }
        i = i + 1;
    }
    buf.extend_from_slice(">".as_bytes());
    proof {
        assert(attrs@.subrange(0, i as int) =~= attrs@);
        assert(buf@ =~= old(buf)@ + opening_tag(tag@, attribute_views(attrs@)));
    }
}

/// Appends the closing tag of `tag` to `buf`.
pub fn render_closing_tag(buf: &mut Vec<u8>, tag: &[u8])
    ensures
        final(buf)@ == old(buf)@ + closing_tag(tag@),
{
    buf.extend_from_slice("</".as_bytes());
    buf.extend_from_slice(tag);
    buf.extend_from_slice(">".as_bytes());
    proof {
        assert(buf@ =~= old(buf)@ + closing_tag(tag@));
    }
}

/// Appends an element of `tag` with the attributes `attrs` and no content
/// to `buf`.
pub fn render_empty_element(buf: &mut Vec<u8>, tag: &[u8], attrs: &[(&[u8], &[u8])])
    ensures
        final(buf)@ == old(buf)@ + opening_tag(tag@, attribute_views(attrs@)) + closing_tag(tag@),
{
    render_eopening_tag(buf, tag, attrs);
    render_closing_tag(buf, tag);
}

} // verus!
