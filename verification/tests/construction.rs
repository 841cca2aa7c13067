use dom_dispatch::domimplementation::{xml_name_type, DOMImplementation, DOMImplementationMethods,
    Error, XMLName};
use dom_dispatch::node::{Forest, NodeKind};

#[test]
fn xml_name_classification() {
    assert_eq!(xml_name_type("html"), XMLName::QName);
    assert_eq!(xml_name_type("svg:svg"), XMLName::QName);
    assert_eq!(xml_name_type("_a-b.c0"), XMLName::QName);
    assert_eq!(xml_name_type(":foo"), XMLName::Name);
    assert_eq!(xml_name_type("foo:"), XMLName::Name);
    assert_eq!(xml_name_type("a:b:c"), XMLName::Name);
    assert_eq!(xml_name_type(""), XMLName::InvalidXMLName);
    assert_eq!(xml_name_type("1foo"), XMLName::InvalidXMLName);
    assert_eq!(xml_name_type("fo o"), XMLName::InvalidXMLName);
    assert_eq!(xml_name_type("-x"), XMLName::InvalidXMLName);
}

#[test]
fn create_document_type_validates_name() {
    let imp = DOMImplementation::new(0);
    let mut f = Forest::new();
    let dt = imp
        .CreateDocumentType(&mut f, "html".to_string(), "pub".to_string(), "sys".to_string())
        .unwrap();
    assert_eq!(dt, 0);
    assert_eq!(f.len(), 1);
    assert_eq!(f.nodes[dt].parent, None);
    match &f.nodes[dt].kind {
        NodeKind::DocumentType { name, public_id, system_id } => {
            assert_eq!(name, "html");
            assert_eq!(public_id, "pub");
            assert_eq!(system_id, "sys");
        }
        _ => panic!("expected a doctype node"),
    }
    let bad = imp.CreateDocumentType(&mut f, "1bad".to_string(), String::new(), String::new());
    assert_eq!(bad, Err(Error::InvalidCharacter));
    let non_qname = imp.CreateDocumentType(&mut f, "a:b:c".to_string(), String::new(),
        String::new());
    assert_eq!(non_qname, Err(Error::NamespaceError));
    assert_eq!(f.len(), 1);
}

#[test]
fn create_document_without_element() {
    let imp = DOMImplementation::new(0);
    let mut f = Forest::new();
    let doc = imp.CreateDocument(&mut f, None, String::new(), None).unwrap();
    assert_eq!(doc, 0);
    assert_eq!(f.len(), 1);
    assert!(matches!(f.nodes[doc].kind, NodeKind::Document { is_html: false }));
    assert_eq!(f.nodes[doc].parent, None);
}

#[test]
fn create_document_adopts_doctype_and_element() {
    let imp = DOMImplementation::new(0);
    let mut f = Forest::new();
    let dt = imp
        .CreateDocumentType(&mut f, "math".to_string(), String::new(), String::new())
        .unwrap();
    let doc = imp
        .CreateDocument(&mut f, Some("http://www.w3.org/1998/Math/MathML".to_string()),
            "math".to_string(), Some(dt))
        .unwrap();
    assert_eq!(doc, 1);
    assert_eq!(f.len(), 3);
    assert!(matches!(f.nodes[doc].kind, NodeKind::Document { is_html: false }));
    // The supplied doctype node itself is re-parented under the new document.
    assert_eq!(f.nodes[dt].parent, Some(doc));
    match &f.nodes[dt].kind {
        NodeKind::DocumentType { name, .. } => assert_eq!(name, "math"),
        _ => panic!("expected a doctype node"),
    }
    assert_eq!(f.nodes[2].parent, Some(doc));
    match &f.nodes[2].kind {
        NodeKind::Element { tag } => assert_eq!(tag, "math"),
        _ => panic!("expected an element node"),
    }
    assert_eq!(f.ancestors(dt), vec![doc]);
}

#[test]
fn create_document_rejects_bad_names_and_namespaces() {
    let imp = DOMImplementation::new(0);
    let mut f = Forest::new();
    assert_eq!(imp.CreateDocument(&mut f, None, "9x".to_string(), None),
        Err(Error::InvalidCharacter));
    assert_eq!(imp.CreateDocument(&mut f, None, "a:b:c".to_string(), None),
        Err(Error::NamespaceError));
    // A prefixed name needs a namespace.
    assert_eq!(imp.CreateDocument(&mut f, None, "x:y".to_string(), None),
        Err(Error::NamespaceError));
    // The xml prefix belongs to the XML namespace alone.
    assert_eq!(imp.CreateDocument(&mut f, Some("http://example.com/".to_string()),
        "xml:a".to_string(), None), Err(Error::NamespaceError));
    assert!(imp.CreateDocument(&mut f,
        Some("http://www.w3.org/XML/1998/namespace".to_string()), "xml:a".to_string(), None)
        .is_ok());
    // xmlns names pair exactly with the xmlns namespace.
    assert_eq!(imp.CreateDocument(&mut f, Some("http://example.com/".to_string()),
        "xmlns".to_string(), None), Err(Error::NamespaceError));
    assert!(imp.CreateDocument(&mut f, Some("http://www.w3.org/2000/xmlns/".to_string()),
        "xmlns".to_string(), None).is_ok());
    assert_eq!(imp.CreateDocument(&mut f, Some("http://www.w3.org/2000/xmlns/".to_string()),
        "a".to_string(), None), Err(Error::NamespaceError));
    assert_eq!(f.len(), 4);
}

#[test]
fn create_html_document_with_title() {
    let imp = DOMImplementation::new(0);
    let mut f = Forest::new();
    let doc = imp.CreateHTMLDocument(&mut f, Some("hello".to_string()));
    assert_eq!(doc, 0);
    assert_eq!(f.len(), 7);
    assert!(matches!(f.nodes[0].kind, NodeKind::Document { is_html: true }));
    match &f.nodes[1].kind {
        NodeKind::DocumentType { name, public_id, system_id } => {
            assert_eq!(name, "html");
            assert_eq!(public_id, "");
            assert_eq!(system_id, "");
        }
        _ => panic!("expected a doctype node"),
    }
    let tags: Vec<(usize, &str, Option<usize>)> = vec![
        (2, "html", Some(0)),
        (3, "head", Some(2)),
        (4, "title", Some(3)),
        (6, "body", Some(2)),
    ];
    for (i, tag, parent) in tags {
        assert_eq!(f.nodes[i].parent, parent);
        match &f.nodes[i].kind {
            NodeKind::Element { tag: t } => assert_eq!(t, tag),
            _ => panic!("expected an element node"),
        }
    }
    assert_eq!(f.nodes[1].parent, Some(0));
    assert_eq!(f.nodes[5].parent, Some(4));
    match &f.nodes[5].kind {
        NodeKind::Text { data } => assert_eq!(data, "hello"),
        _ => panic!("expected a text node"),
    }
}

#[test]
fn create_html_document_without_title() {
    let imp = DOMImplementation::new_inherited(3);
    assert_eq!(imp.owner, 3);
    let mut f = Forest::new();
    let doc = imp.CreateHTMLDocument(&mut f, None);
    assert_eq!(doc, 0);
    assert_eq!(f.len(), 5);
    assert_eq!(f.nodes[4].parent, Some(2));
    match &f.nodes[4].kind {
        NodeKind::Element { tag } => assert_eq!(tag, "body"),
        _ => panic!("expected an element node"),
    }
}

#[test]
fn append_child_attaches_only_detached_childless_nodes() {
    let mut f = Forest::new();
    let a = f.create_element("a".to_string());
    let b = f.create_element("b".to_string());
    let c = f.create_element("c".to_string());
    assert!(f.append_child(a, b).is_ok());
    // Already attached.
    assert_eq!(f.append_child(c, b), Err(Error::HierarchyRequest));
    // A node with children cannot be re-attached.
    assert_eq!(f.append_child(c, a), Err(Error::HierarchyRequest));
    // A node cannot be its own parent.
    assert_eq!(f.append_child(c, c), Err(Error::HierarchyRequest));
    assert_eq!(f.ancestors(b), vec![a]);
    // A detached, childless node goes beneath a younger parent too.
    let d = f.create_element("d".to_string());
    assert!(f.append_child(d, c).is_ok());
    assert_eq!(f.ancestors(c), vec![d]);
}
