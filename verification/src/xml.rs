//! The tokens of an XML document.

use vstd::prelude::*;

verus! {

/// `quick_xml::Reader`, a pull reader over an XML document.
#[verifier::external_type_specification]
#[verifier::external_body]
#[verifier::reject_recursive_types(R)]
pub struct ExReader<R>(quick_xml::Reader<R>);

/// An attribute of an element.
#[derive(Debug, PartialEq, Eq)]
pub enum XmlAttribute {
    /// A key and its unescaped value; `None` where the value cannot be unescaped.
    Pair { key: Vec<u8>, value: Option<String> },
    /// An attribute that is not well formed.
    Malformed,
}

/// A token of a document.
#[derive(Debug, PartialEq, Eq)]
pub enum XmlToken {
    /// An element without content, such as `<block block="5"/>`.
    Empty { name: Vec<u8>, attributes: Vec<XmlAttribute> },
    /// Any other piece of the document.
    Other,
    /// A place where the document is not well formed.
    Malformed { message: String },
}

/// An attribute with texts in place of strings.
pub ghost enum XmlAttributeView {
    Pair { key: Seq<u8>, value: Option<Seq<char>> },
    Malformed,
}

/// A token with texts in place of strings.
pub ghost enum XmlTokenView {
    Empty { name: Seq<u8>, attributes: Seq<XmlAttributeView> },
    Other,
    Malformed { message: Seq<char> },
}

impl View for XmlAttribute {
    type V = XmlAttributeView;

    open spec fn view(&self) -> XmlAttributeView {
        match self {
            XmlAttribute::Pair { key, value } => XmlAttributeView::Pair {
                key: key@,
                value: match value {
                    Some(text) => Some(text@),
                    None => None,
                },
            },
            XmlAttribute::Malformed => XmlAttributeView::Malformed,
        }
    }
}

impl View for XmlToken {
    type V = XmlTokenView;

    open spec fn view(&self) -> XmlTokenView {
        match self {
            XmlToken::Empty { name, attributes } => XmlTokenView::Empty {
                name: name@,
                attributes: attributes@.map_values(|a: XmlAttribute| a@),
            },
            XmlToken::Other => XmlTokenView::Other,
            XmlToken::Malformed { message } => XmlTokenView::Malformed { message: message@ },
        }
    }
}

/// The tokens with texts in place of strings.
pub open spec fn token_views(tokens: Seq<XmlToken>) -> Seq<XmlTokenView> {
    tokens.map_values(|t: XmlToken| t@)
}

/// The tokens of a document as `quick_xml` reads it, up to its end.
pub uninterp spec fn document_tokens(xml: Seq<char>) -> Seq<XmlTokenView>;

/// The tokens that a reader has still to hand out.
pub uninterp spec fn pending_tokens(reader: quick_xml::Reader<&[u8]>) -> Seq<XmlTokenView>;

/// `quick_xml::Reader::from_str`: a reader that has still to hand out every token
/// of the document.
#[verifier::external_body]
fn open_document(xml: &str) -> (reader: quick_xml::Reader<&[u8]>)
    ensures
        pending_tokens(reader) == document_tokens(xml@),
{
    quick_xml::Reader::from_str(xml)
}

/// `quick_xml::Reader::read_event`: the next token, which the reader then no
/// longer holds, or `None` at the end of the document. The attributes of an element
/// are those of `BytesStart::attributes`, their values those of
/// `Attribute::unescape_value`.
#[verifier::external_body]
fn read_token(reader: &mut quick_xml::Reader<&[u8]>) -> (token: Option<XmlToken>)
    ensures
        token is None <==> pending_tokens(*old(reader)).len() == 0,
        token matches Some(t) ==> t@ == pending_tokens(*old(reader))[0] && pending_tokens(
            *final(reader),
        ) == pending_tokens(*old(reader)).drop_first(),
{
    match reader.read_event() {
        Ok(quick_xml::events::Event::Eof) => None,
        Ok(quick_xml::events::Event::Empty(e)) => Some(XmlToken::Empty {
            name: e.name().as_ref().to_vec(),
            attributes: e.attributes().map(|a| match a {
                Ok(pair) => XmlAttribute::Pair {
                    key: pair.key.as_ref().to_vec(),
                    value: pair.unescape_value().ok().map(|text| text.into_owned()),
                },
                Err(_) => XmlAttribute::Malformed,
            }).collect(),
        }),
        Ok(_) => Some(XmlToken::Other),
        Err(error) => Some(XmlToken::Malformed { message: error.to_string() }),
    }
}

/// The tokens of a document, up to its end.
pub fn tokens_of(xml: &str) -> (tokens: Vec<XmlToken>)
    ensures
        token_views(tokens@) == document_tokens(xml@),
{
    let mut reader = open_document(xml);
    let mut tokens: Vec<XmlToken> = Vec::new();
    assert(token_views(tokens@) + pending_tokens(reader) =~= document_tokens(xml@));
    loop
        invariant
            token_views(tokens@) + pending_tokens(reader) == document_tokens(xml@),
        decreases pending_tokens(reader).len(),
    {
        let ghost pending = pending_tokens(reader);
        match read_token(&mut reader) {
            None => {
                assert(token_views(tokens@) =~= document_tokens(xml@));
                return tokens;
            },
            Some(token) => {
                proof {
                    assert(token_views(tokens@.push(token)) =~= token_views(tokens@).push(token@));
                    assert(token_views(tokens@).push(token@) + pending.drop_first() =~= token_views(
                        tokens@,
                    ) + pending);
                }
                tokens.push(token);
            },
        }
    }
}

/// What tokens and attributes are, as the laws speak of them: each part of them is itself.
pub proof fn law_tokens_are_seen_as_they_are(token: XmlToken, attribute: XmlAttribute)
    ensures
        match token {
            XmlToken::Empty { name, attributes } => {
                &&& token@ matches XmlTokenView::Empty { name: n, attributes: list }
                &&& n == name@
                &&& list.len() == attributes@.len()
                &&& forall|i: int| 0 <= i < list.len() ==> #[trigger] list[i] == attributes@[i]@
            },
            XmlToken::Other => token@ is Other,
            XmlToken::Malformed { message } => token@ == (XmlTokenView::Malformed {
                message: message@,
            }),
        },
        match attribute {
            XmlAttribute::Pair { key, value: Some(text) } => attribute@ == (XmlAttributeView::Pair {
                key: key@,
                value: Some(text@),
            }),
            XmlAttribute::Pair { key, value: None } => attribute@ == (XmlAttributeView::Pair {
                key: key@,
                value: None,
            }),
            XmlAttribute::Malformed => attribute@ is Malformed,
        },
{
}

} // verus!
