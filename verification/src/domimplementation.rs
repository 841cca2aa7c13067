//! Document construction built on the tree abstraction: the
//! `DOMImplementation` capability, XML name classification, and the creation
//! methods that assemble fixed document shapes.

use vstd::prelude::*;
use crate::node::{Forest, NodeKind};
use crate::eventtarget::ListenerEntry;

verus! {

/// The error surface of the construction routines.
#[derive(Clone, Copy, PartialEq, Eq, Structural, Debug)]
pub enum Error {
    /// A name contains a character no XML name may hold.
    InvalidCharacter,
    /// A name or namespace combination the namespace rules reject.
    NamespaceError,
    /// An attachment the tree discipline rejects.
    HierarchyRequest,
}

/// How a string relates to the XML name productions: a valid qualified name,
/// a valid name that is no qualified name, or no name at all.
#[derive(Clone, Copy, PartialEq, Eq, Structural, Debug)]
pub enum XMLName {
    QName,
    Name,
    InvalidXMLName,
}

/// Whether `c` may begin an XML name.
pub open spec fn is_valid_start(c: char) -> bool {
    let u = c as u32;
    ||| u == 58  // ':'
    ||| (65 <= u && u <= 90)  // 'A'-'Z'
    ||| u == 95  // '_'
    ||| (97 <= u && u <= 122)  // 'a'-'z'
    ||| (0xC0 <= u && u <= 0xD6)
    ||| (0xD8 <= u && u <= 0xF6)
    ||| (0xF8 <= u && u <= 0x2FF)
    ||| (0x370 <= u && u <= 0x37D)
    ||| (0x37F <= u && u <= 0x1FFF)
    ||| (0x200C <= u && u <= 0x200D)
    ||| (0x2070 <= u && u <= 0x218F)
    ||| (0x2C00 <= u && u <= 0x2FEF)
    ||| (0x3001 <= u && u <= 0xD7FF)
    ||| (0xF900 <= u && u <= 0xFDCF)
    ||| (0xFDF0 <= u && u <= 0xFFFD)
    ||| (0x10000 <= u && u <= 0xEFFFF)
}

/// Whether `c` may continue an XML name.
pub open spec fn is_valid_continuation(c: char) -> bool {
    let u = c as u32;
    ||| is_valid_start(c)
    ||| u == 45  // '-'
    ||| u == 46  // '.'
    ||| (48 <= u && u <= 57)  // '0'-'9'
    ||| u == 0xB7
    ||| (0x300 <= u && u <= 0x36F)
    ||| (0x203F <= u && u <= 0x2040)
}

/// Whether `s` matches the XML name production: non-empty, a valid start
/// character, and valid continuation characters throughout.
pub open spec fn name_chars_ok(s: Seq<char>) -> bool {
    &&& s.len() > 0
    &&& is_valid_start(s[0])
    &&& forall|i: int| 1 <= i < s.len() ==> is_valid_continuation(#[trigger] s[i])
}

/// The number of colons in `s`.
pub open spec fn count_colons(s: Seq<char>) -> int
    decreases s.len(),
{
    if s.len() == 0 {
        0
    } else {
        count_colons(s.drop_last()) + if s.last() == ':' {
            1int
        } else {
            0int
        }
    }
}

/// Whether a valid name also matches the qualified-name production: no colon
/// at either end and at most one colon overall.
pub open spec fn is_qualified_name(s: Seq<char>) -> bool {
    &&& s.len() > 0
    &&& s[0] != ':'
    &&& s[s.len() - 1] != ':'
    &&& count_colons(s) <= 1
}

fn is_valid_start_char(c: char) -> (r: bool)
    ensures
        r == is_valid_start(c),
{
    let u = c as u32;
    u == 58 || (65 <= u && u <= 90) || u == 95 || (97 <= u && u <= 122)
        || (0xC0 <= u && u <= 0xD6) || (0xD8 <= u && u <= 0xF6) || (0xF8 <= u && u <= 0x2FF)
        || (0x370 <= u && u <= 0x37D) || (0x37F <= u && u <= 0x1FFF)
        || (0x200C <= u && u <= 0x200D) || (0x2070 <= u && u <= 0x218F)
        || (0x2C00 <= u && u <= 0x2FEF) || (0x3001 <= u && u <= 0xD7FF)
        || (0xF900 <= u && u <= 0xFDCF) || (0xFDF0 <= u && u <= 0xFFFD)
        || (0x10000 <= u && u <= 0xEFFFF)
}

fn is_valid_continuation_char(c: char) -> (r: bool)
    ensures
        r == is_valid_continuation(c),
{
    let u = c as u32;
    is_valid_start_char(c) || u == 45 || u == 46 || (48 <= u && u <= 57) || u == 0xB7
        || (0x300 <= u && u <= 0x36F) || (0x203F <= u && u <= 0x2040)
}

/// Classify `name` against the XML name and qualified-name productions.
pub fn xml_name_type(name: &str) -> (r: XMLName)
    ensures
        r == XMLName::InvalidXMLName <==> !name_chars_ok(name@),
        r == XMLName::QName <==> name_chars_ok(name@) && is_qualified_name(name@),
        r == XMLName::Name <==> name_chars_ok(name@) && !is_qualified_name(name@),
{
    let len = name.unicode_len();
    if len == 0 {
        return XMLName::InvalidXMLName;
    }
    let mut colons: usize = 0;
    let mut i: usize = 0;
    while i < len
        invariant
            0 < len == name@.len(),
            i <= len,
            colons == count_colons(name@.take(i as int)),
            colons <= i,
            i > 0 ==> is_valid_start(name@[0]),
            forall|k: int| 1 <= k < i ==> is_valid_continuation(#[trigger] name@[k]),
        decreases len - i,
    {
        let c = name.get_char(i);
        let ok = if i == 0 {
            is_valid_start_char(c)
        } else {
            is_valid_continuation_char(c)
        };
        if !ok {
            return XMLName::InvalidXMLName;
        }
        proof {
            assert(name@.take(i as int + 1).drop_last() =~= name@.take(i as int));
            assert(name@.take(i as int + 1).last() == name@[i as int]);
        }
        if c == ':' {
            colons = colons + 1;
        }
        i = i + 1;
    }
    proof {
        assert(name@.take(len as int) =~= name@);
    }
    if name.get_char(0) == ':' || name.get_char(len - 1) == ':' || colons > 1 {
        XMLName::Name
    } else {
        XMLName::QName
    }
}

/// The position of the first colon in `s`, or `s.len()` when it has none.
pub open spec fn first_colon(s: Seq<char>) -> int
    decreases s.len(),
{
    if s.len() == 0 {
        0
    } else if s[0] == ':' {
        0
    } else {
        1 + first_colon(s.drop_first())
    }
}

/// The prefix of a qualified name: what stands before its colon, when it has
/// one.
pub open spec fn prefix_of(s: Seq<char>) -> Option<Seq<char>> {
    if first_colon(s) < s.len() {
        Some(s.take(first_colon(s)))
    } else {
        None
    }
}

proof fn lemma_first_colon_is(s: Seq<char>, i: int)
    requires
        0 <= i <= s.len(),
        forall|k: int| 0 <= k < i ==> s[k] != ':',
        i < s.len() ==> s[i] == ':',
    ensures
        first_colon(s) == i,
    decreases s.len(),
{
    if s.len() == 0 {
    } else if s[0] == ':' {
        assert(i == 0);
    } else {
        assert(i >= 1);
        assert(forall|k: int| 0 <= k < i - 1 ==> #[trigger] s.drop_first()[k] == s[k + 1]);
        assert(i - 1 < s.drop_first().len() ==> s.drop_first()[i - 1] == s[i]);
        lemma_first_colon_is(s.drop_first(), i - 1);
    }
}

/// A namespace argument taken as absent when it is missing or empty.
pub open spec fn effective_ns(namespace: Option<Seq<char>>) -> Option<Seq<char>> {
    match namespace {
        Some(n) => if n.len() == 0 {
            None
        } else {
            Some(n)
        },
        None => None,
    }
}

/// The view of an optional namespace string.
pub open spec fn ns_view(namespace: Option<String>) -> Option<Seq<char>> {
    match namespace {
        Some(n) => Some(n@),
        None => None,
    }
}

/// The namespace rules element creation applies to an already qualified
/// name: a prefixed name needs a namespace; the `xml` prefix belongs to the
/// XML namespace alone; the `xmlns` prefix or name belongs to the XML
/// namespaces namespace, and that namespace admits no other name.
pub open spec fn create_element_ns_ok(namespace: Option<Seq<char>>, qname: Seq<char>) -> bool {
    let ns = effective_ns(namespace);
    let pre = prefix_of(qname);
    let names_xmlns = qname == "xmlns"@ || pre == Some("xmlns"@);
    &&& !(pre is Some && ns is None)
    &&& !(pre == Some("xml"@) && ns != Some("http://www.w3.org/XML/1998/namespace"@))
    &&& !(names_xmlns && ns != Some("http://www.w3.org/2000/xmlns/"@))
    &&& !(ns == Some("http://www.w3.org/2000/xmlns/"@) && !names_xmlns)
}

/// Apply the namespace rules of element creation to a qualified name.
fn check_element_ns(namespace: &Option<String>, qname: &String) -> (r: bool)
    ensures
        r == create_element_ns_ok(ns_view(*namespace), qname@),
{
    let len = qname.as_str().unicode_len();
    let mut idx: usize = 0;
    let mut found = false;
    while idx < len
        invariant_except_break
            !found,
        invariant
            len == qname@.len(),
            idx <= len,
            forall|k: int| 0 <= k < idx ==> qname@[k] != ':',
        ensures
            found ==> idx < len && qname@[idx as int] == ':'
                && (forall|k: int| 0 <= k < idx ==> qname@[k] != ':'),
            !found ==> idx == len && (forall|k: int| 0 <= k < len ==> qname@[k] != ':'),
        decreases len - idx,
    {
        if qname.as_str().get_char(idx) == ':' {
            found = true;
            break;
        }
        idx = idx + 1;
    }
    proof {
        if found {
            lemma_first_colon_is(qname@, idx as int);
        } else {
            lemma_first_colon_is(qname@, len as int);
        }
    }
    let prefix: Option<String> = if found {
        Some(qname.as_str().substring_char(0, idx).to_owned())
    } else {
        None
    };
    let has_ns: bool = match namespace {
        Some(n) => !n.as_str().is_empty(),
        None => false,
    };
    let xml_word: String = "xml".to_owned();
    let xmlns_word: String = "xmlns".to_owned();
    let xml_ns: String = "http://www.w3.org/XML/1998/namespace".to_owned();
    let xmlns_ns: String = "http://www.w3.org/2000/xmlns/".to_owned();
    let prefix_is_xml: bool = match &prefix {
        Some(p) => *p == xml_word,
        None => false,
    };
    let prefix_is_xmlns: bool = match &prefix {
        Some(p) => *p == xmlns_word,
        None => false,
    };
    let names_xmlns: bool = *qname == xmlns_word || prefix_is_xmlns;
    let ns_is_xml: bool = match namespace {
        Some(n) => has_ns && *n == xml_ns,
        None => false,
    };
    let ns_is_xmlns: bool = match namespace {
        Some(n) => has_ns && *n == xmlns_ns,
        None => false,
    };
    if found && !has_ns {
        return false;
    }
    if prefix_is_xml && !ns_is_xml {
        return false;
    }
    if names_xmlns && !ns_is_xmlns {
        return false;
    }
    if ns_is_xmlns && !names_xmlns {
        return false;
    }
    true
}

/// The capability object through which a caller builds documents; `owner` is
/// the node its surrounding context lives at.
pub struct DOMImplementation {
    pub owner: usize,
}

impl DOMImplementation {
    pub fn new_inherited(owner: usize) -> (r: DOMImplementation)
        ensures
            r.owner == owner,
    {
        DOMImplementation { owner }
    }

    pub fn new(owner: usize) -> (r: DOMImplementation)
        ensures
            r.owner == owner,
    {
        DOMImplementation::new_inherited(owner)
    }
}

/// Whether slot `i` of `f` holds a doctype node.
pub open spec fn is_doctype_at(f: Forest, i: usize) -> bool {
    &&& (i as int) < f.nodes@.len()
    &&& f.nodes@[i as int].kind is DocumentType
}

pub trait DOMImplementationMethods {
    /// Create a detached doctype node named `qname`, after validating the
    /// name: a string that is no XML name is rejected as an invalid
    /// character, a name that is no qualified name as a namespace error.
    #[allow(non_snake_case)]
    fn CreateDocumentType(&self, forest: &mut Forest, qname: String, pubid: String,
        sysid: String) -> (r: Result<usize, Error>)
        requires
            old(forest).wf(),
        ensures
            final(forest).wf(),
            r is Ok <==> name_chars_ok(qname@) && is_qualified_name(qname@),
            r == Result::<usize, Error>::Err(Error::InvalidCharacter)
                <==> !name_chars_ok(qname@),
            r == Result::<usize, Error>::Err(Error::NamespaceError)
                <==> name_chars_ok(qname@) && !is_qualified_name(qname@),
            r is Err ==> *final(forest) == *old(forest),
            match r {
                Ok(i) => {
                    &&& i == old(forest).nodes@.len()
                    &&& final(forest).nodes@.len() == old(forest).nodes@.len() + 1
                    &&& forall|j: int| 0 <= j < old(forest).nodes@.len()
                        ==> final(forest).nodes@[j] == old(forest).nodes@[j]
                    &&& final(forest).nodes@[i as int].parent is None
                    &&& final(forest).nodes@[i as int].kind == (NodeKind::DocumentType {
                        name: qname,
                        public_id: pubid,
                        system_id: sysid,
                    })
                    &&& final(forest).nodes@[i as int].event_target.entries@
                        =~= Seq::<ListenerEntry>::empty()
                },
                Err(_) => true,
            },
    ;

    /// Create a document holding an optional root element named `qname` in
    /// `namespace`, and — when `maybe_doctype` names a doctype node — that
    /// very node, re-parented under the new document.
    ///
    /// The supplied doctype must be detached and childless, the state a
    /// freshly created doctype is in: under that discipline its attachment
    /// cannot fail.
    #[allow(non_snake_case)]
    fn CreateDocument(&self, forest: &mut Forest, namespace: Option<String>, qname: String,
        maybe_doctype: Option<usize>) -> (r: Result<usize, Error>)
        requires
            old(forest).wf(),
            match maybe_doctype {
                Some(d) => is_doctype_at(*old(forest), d)
                    && old(forest).nodes@[d as int].parent is None
                    && old(forest).childless(d),
                None => true,
            },
        ensures
            final(forest).wf(),
            r is Ok <==> (qname@.len() == 0 || (name_chars_ok(qname@)
                && is_qualified_name(qname@)
                && create_element_ns_ok(ns_view(namespace), qname@))),
            r == Result::<usize, Error>::Err(Error::InvalidCharacter)
                <==> qname@.len() > 0 && !name_chars_ok(qname@),
            r == Result::<usize, Error>::Err(Error::NamespaceError)
                <==> qname@.len() > 0 && name_chars_ok(qname@)
                    && !(is_qualified_name(qname@)
                        && create_element_ns_ok(ns_view(namespace), qname@)),
            r is Err ==> *final(forest) == *old(forest),
            match r {
                Ok(doc) => {
                    let n0 = old(forest).nodes@.len() as int;
                    let with_elem = qname@.len() > 0;
                    &&& doc == n0
                    &&& final(forest).nodes@.len() == n0 + 1
                        + (if with_elem { 1int } else { 0int })
                    &&& forall|j: int| 0 <= j < n0 && (match maybe_doctype {
                        Some(d) => j != d,
                        None => true,
                    }) ==> final(forest).nodes@[j] == old(forest).nodes@[j]
                    &&& final(forest).nodes@[n0].parent is None
                    &&& final(forest).nodes@[n0].kind == (NodeKind::Document { is_html: false })
                    &&& match maybe_doctype {
                        Some(d) => {
                            &&& final(forest).nodes@[d as int].parent == Some(doc)
                            &&& final(forest).nodes@[d as int].kind
                                == old(forest).nodes@[d as int].kind
                            &&& final(forest).nodes@[d as int].event_target
                                == old(forest).nodes@[d as int].event_target
                        },
                        None => true,
                    }
                    &&& with_elem ==> {
                        &&& final(forest).nodes@[n0 + 1].parent == Some(doc)
                        &&& final(forest).nodes@[n0 + 1].kind == (NodeKind::Element {
                            tag: qname,
                        })
                    }
                },
                Err(_) => true,
            },
    ;

    /// Create a complete HTML document shell: a doctype named `html`, an
    /// `html` element holding a `head` — with a `title` element wrapping a
    /// text node when a title is supplied — and a `body`.
    #[allow(non_snake_case)]
    fn CreateHTMLDocument(&self, forest: &mut Forest, title: Option<String>) -> (r: usize)
        requires
            old(forest).wf(),
        ensures
            final(forest).wf(),
            ({
                let n0 = old(forest).nodes@.len() as int;
                let with_title = title is Some;
                let body_at = if with_title { n0 + 6 } else { n0 + 4 };
                &&& r == n0
                &&& final(forest).nodes@.len() == n0 + 5 + (if with_title { 2int } else { 0int })
                &&& forall|j: int| 0 <= j < n0
                    ==> final(forest).nodes@[j] == old(forest).nodes@[j]
                &&& final(forest).nodes@[n0].parent is None
                &&& final(forest).nodes@[n0].kind == (NodeKind::Document { is_html: true })
                &&& final(forest).nodes@[n0 + 1].parent == Some(r)
                &&& final(forest).nodes@[n0 + 1].kind is DocumentType
                &&& final(forest).nodes@[n0 + 1].kind->DocumentType_name@ == "html"@
                &&& final(forest).nodes@[n0 + 1].kind->DocumentType_public_id@.len() == 0
                &&& final(forest).nodes@[n0 + 1].kind->DocumentType_system_id@.len() == 0
                &&& final(forest).nodes@[n0 + 2].parent == Some(r)
                &&& final(forest).nodes@[n0 + 2].kind is Element
                &&& final(forest).nodes@[n0 + 2].kind->Element_tag@ == "html"@
                &&& final(forest).nodes@[n0 + 3].parent == Some((n0 + 2) as usize)
                &&& final(forest).nodes@[n0 + 3].kind is Element
                &&& final(forest).nodes@[n0 + 3].kind->Element_tag@ == "head"@
                &&& with_title ==> {
                    &&& final(forest).nodes@[n0 + 4].parent == Some((n0 + 3) as usize)
                    &&& final(forest).nodes@[n0 + 4].kind is Element
                    &&& final(forest).nodes@[n0 + 4].kind->Element_tag@ == "title"@
                    &&& final(forest).nodes@[n0 + 5].parent == Some((n0 + 4) as usize)
                    &&& final(forest).nodes@[n0 + 5].kind is Text
                    &&& final(forest).nodes@[n0 + 5].kind->Text_data@ == title->0@
                }
                &&& final(forest).nodes@[body_at].parent == Some((n0 + 2) as usize)
                &&& final(forest).nodes@[body_at].kind is Element
                &&& final(forest).nodes@[body_at].kind->Element_tag@ == "body"@
            }),
    ;
}

impl DOMImplementationMethods for DOMImplementation {
    fn CreateDocumentType(&self, forest: &mut Forest, qname: String, pubid: String,
        sysid: String) -> (r: Result<usize, Error>) {
        match xml_name_type(qname.as_str()) {
            XMLName::InvalidXMLName => Err(Error::InvalidCharacter),
            XMLName::Name => Err(Error::NamespaceError),
            XMLName::QName => Ok(forest.create_document_type(qname, pubid, sysid)),
        }
    }

    fn CreateDocument(&self, forest: &mut Forest, namespace: Option<String>, qname: String,
        maybe_doctype: Option<usize>) -> (r: Result<usize, Error>) {
        let with_elem = !qname.as_str().is_empty();
        if with_elem {
            match xml_name_type(qname.as_str()) {
                XMLName::InvalidXMLName => {
                    return Err(Error::InvalidCharacter);
                }
                XMLName::Name => {
                    return Err(Error::NamespaceError);
                }
                XMLName::QName => {}
            }
            if !check_element_ns(&namespace, &qname) {
                return Err(Error::NamespaceError);
            }
        }
        let doc = forest.create_document(false);
        match maybe_doctype {
            Some(given) => {
                proof {
                    assert forall|j: int| 0 <= j < forest.nodes@.len()
                        implies (#[trigger] forest.nodes@[j].parent) != Some(given) by {
                        if j < old(forest).nodes@.len() {
                            assert(forest.nodes@[j] == old(forest).nodes@[j]);
                        }
                    }
                }
                let attached = forest.append_child(doc, given);
                proof {
                    assert(attached is Ok);
                }
            }
            None => {}
        }
        if with_elem {
            let elem = forest.create_element(qname);
            let attached = forest.append_child(doc, elem);
            proof {
                assert(attached is Ok);
            }
        }
        Ok(doc)
    }

    fn CreateHTMLDocument(&self, forest: &mut Forest, title: Option<String>) -> (r: usize) {
        let doc = forest.create_document(true);
        let dt = forest.create_document_type("html".to_owned(), String::new(), String::new());
        let attached_dt = forest.append_child(doc, dt);
        proof {
            assert(attached_dt is Ok);
        }
        let html = forest.create_element("html".to_owned());
        let attached_html = forest.append_child(doc, html);
        proof {
            assert(attached_html is Ok);
        }
        let head = forest.create_element("head".to_owned());
        let attached_head = forest.append_child(html, head);
        proof {
            assert(attached_head is Ok);
        }
        match title {
            Some(title_str) => {
                let title_elem = forest.create_element("title".to_owned());
                let attached_title = forest.append_child(head, title_elem);
                proof {
                    assert(attached_title is Ok);
                }
                let text = forest.create_text(title_str);
                let attached_text = forest.append_child(title_elem, text);
                proof {
                    assert(attached_text is Ok);
                }
            }
            None => {}
        }
        let body = forest.create_element("body".to_owned());
        let attached_body = forest.append_child(html, body);
        proof {
            assert(attached_body is Ok);
        }
        doc
    }
}

} // verus!
