use dom_attrs::htmlelement::{
    inner_text_fragments, Attribute, ChildRef, DirAttribute, Direction, ElementKind, HTMLElement,
    InnerTextItem, InputType, LabelRef, ParentNode,
};
use dom_attrs::htmlpreelement::HTMLPreElement;

fn plain_element() -> HTMLElement {
    HTMLElement::new_inherited(
        1,
        ElementKind::Other,
        InputType::Other,
        DirAttribute::Unset,
        None,
    )
}

#[test]
fn set_and_get_custom_attr() {
    let mut el = plain_element();
    assert!(el
        .set_custom_attr("fooBar".to_string(), "baz".to_string())
        .is_ok());
    assert_eq!(el.attrs.len(), 1);
    assert_eq!(el.attrs[0].name, "data-foo-bar");
    assert_eq!(el.attrs[0].value, "baz");
    assert_eq!(
        el.get_custom_attr("fooBar".to_string()),
        Some("baz".to_string())
    );
    assert_eq!(el.get_custom_attr("other".to_string()), None);
}

#[test]
fn set_custom_attr_rejects_malformed_name() {
    let mut el = plain_element();
    assert!(el
        .set_custom_attr("foo-bar".to_string(), "baz".to_string())
        .is_err());
    assert_eq!(el.attrs.len(), 0);
}

#[test]
fn set_custom_attr_replaces_in_place() {
    let mut el = plain_element();
    el.set_custom_attr("a".to_string(), "1".to_string()).unwrap();
    el.set_custom_attr("fooBar".to_string(), "2".to_string())
        .unwrap();
    el.set_custom_attr("a".to_string(), "3".to_string()).unwrap();
    assert_eq!(el.attrs.len(), 2);
    assert_eq!(el.attrs[0].name, "data-a");
    assert_eq!(el.attrs[0].value, "3");
    assert_eq!(el.get_custom_attr("a".to_string()), Some("3".to_string()));
}

#[test]
fn delete_custom_attr_removes_the_entry() {
    let mut el = plain_element();
    el.set_custom_attr("a".to_string(), "1".to_string()).unwrap();
    el.set_custom_attr("b".to_string(), "2".to_string()).unwrap();
    el.delete_custom_attr("a".to_string());
    assert_eq!(el.attrs.len(), 1);
    assert_eq!(el.get_custom_attr("a".to_string()), None);
    assert_eq!(el.get_custom_attr("b".to_string()), Some("2".to_string()));
    // Deleting a missing entry changes nothing.
    el.delete_custom_attr("a".to_string());
    assert_eq!(el.attrs.len(), 1);
}

#[test]
fn supported_prop_names_decodes_dataset_attributes() {
    let mut el = plain_element();
    el.set_custom_attr("fooBar".to_string(), "1".to_string())
        .unwrap();
    el.attrs.push(Attribute {
        name: "title".to_string(),
        value: "t".to_string(),
    });
    el.attrs.push(Attribute {
        name: "data-Bad".to_string(),
        value: "x".to_string(),
    });
    el.set_custom_attr("ok".to_string(), "2".to_string()).unwrap();
    let names = el.supported_prop_names_custom_attr();
    assert_eq!(names, vec!["fooBar".to_string(), "ok".to_string()]);
}

#[test]
fn labelable_elements() {
    let mk = |kind, input_type| {
        HTMLElement::new_inherited(1, kind, input_type, DirAttribute::Unset, None)
    };
    assert!(mk(ElementKind::Button, InputType::Other).is_labelable_element());
    assert!(mk(ElementKind::Meter, InputType::Other).is_labelable_element());
    assert!(mk(ElementKind::Output, InputType::Other).is_labelable_element());
    assert!(mk(ElementKind::Progress, InputType::Other).is_labelable_element());
    assert!(mk(ElementKind::Select, InputType::Other).is_labelable_element());
    assert!(mk(ElementKind::Input, InputType::Other).is_labelable_element());
    assert!(mk(ElementKind::Input, InputType::Tel).is_labelable_element());
    assert!(!mk(ElementKind::Input, InputType::Hidden).is_labelable_element());
    assert!(!mk(ElementKind::FieldSet, InputType::Other).is_labelable_element());
    assert!(!mk(ElementKind::Other, InputType::Other).is_labelable_element());
}

#[test]
fn listed_elements() {
    let mk = |kind| HTMLElement::new_inherited(1, kind, InputType::Other, DirAttribute::Unset, None);
    assert!(mk(ElementKind::Button).is_listed_element());
    assert!(mk(ElementKind::FieldSet).is_listed_element());
    assert!(mk(ElementKind::Input).is_listed_element());
    assert!(mk(ElementKind::Object).is_listed_element());
    assert!(mk(ElementKind::Output).is_listed_element());
    assert!(mk(ElementKind::Select).is_listed_element());
    assert!(!mk(ElementKind::Meter).is_listed_element());
    assert!(!mk(ElementKind::Progress).is_listed_element());
    assert!(!mk(ElementKind::Other).is_listed_element());
}

#[test]
fn body_or_frameset() {
    let mk = |kind| HTMLElement::new_inherited(1, kind, InputType::Other, DirAttribute::Unset, None);
    assert!(mk(ElementKind::Body).is_body_or_frameset());
    assert!(mk(ElementKind::FrameSet).is_body_or_frameset());
    assert!(!mk(ElementKind::Pre).is_body_or_frameset());
    assert!(!mk(ElementKind::Other).is_body_or_frameset());
}

#[test]
fn directionality_from_dir_attribute() {
    let mk = |dir| HTMLElement::new_inherited(1, ElementKind::Other, InputType::Other, dir, None);
    assert_eq!(mk(DirAttribute::Ltr).directionality(), Some(Direction::Ltr));
    assert_eq!(mk(DirAttribute::Rtl).directionality(), Some(Direction::Rtl));
    assert_eq!(mk(DirAttribute::Auto).directionality(), None);
    assert_eq!(mk(DirAttribute::Unset).directionality(), None);
}

#[test]
fn directionality_of_telephone_input() {
    let el = HTMLElement::new_inherited(
        1,
        ElementKind::Input,
        InputType::Tel,
        DirAttribute::Unset,
        None,
    );
    assert_eq!(el.directionality(), Some(Direction::Ltr));
    // An explicit dir attribute still wins.
    let el = HTMLElement::new_inherited(
        1,
        ElementKind::Input,
        InputType::Tel,
        DirAttribute::Rtl,
        None,
    );
    assert_eq!(el.directionality(), Some(Direction::Rtl));
}

#[test]
fn directionality_auto_from_value() {
    let input = |auto| {
        HTMLElement::new_inherited(
            1,
            ElementKind::Input,
            InputType::Other,
            DirAttribute::Auto,
            auto,
        )
    };
    assert_eq!(input(Some(Direction::Rtl)).directionality(), Some(Direction::Rtl));
    assert_eq!(input(None).directionality(), None);
    let area = HTMLElement::new_inherited(
        1,
        ElementKind::TextArea,
        InputType::Other,
        DirAttribute::Auto,
        Some(Direction::Ltr),
    );
    assert_eq!(area.directionality(), Some(Direction::Ltr));
}

#[test]
fn labels_count_and_label_at() {
    let el = plain_element();
    let labels = vec![
        LabelRef { node: 10, control: Some(1) },
        LabelRef { node: 11, control: Some(2) },
        LabelRef { node: 12, control: None },
        LabelRef { node: 13, control: Some(1) },
    ];
    assert_eq!(el.labels_count(&labels), 2);
    assert_eq!(el.label_at(&labels, 0), Some(10));
    assert_eq!(el.label_at(&labels, 1), Some(13));
    assert_eq!(el.label_at(&labels, 2), None);
    assert_eq!(el.labels_count(&Vec::new()), 0);
    assert_eq!(el.label_at(&Vec::new(), 0), None);
}

fn summary_element(id: u64) -> HTMLElement {
    HTMLElement::new_inherited(
        id,
        ElementKind::Summary,
        InputType::Other,
        DirAttribute::Unset,
        None,
    )
}

#[test]
fn summary_toggles_its_parent_details() {
    let el = summary_element(5);
    let parent = ParentNode {
        kind: ElementKind::Details,
        is_open: false,
        children: vec![
            ChildRef { id: 4, kind: ElementKind::Other },
            ChildRef { id: 5, kind: ElementKind::Summary },
            ChildRef { id: 6, kind: ElementKind::Summary },
        ],
    };
    assert!(el.is_summary_for_its_parent_details(&Some(parent.clone())));
    let toggled = el.summary_activation_behavior(Some(parent)).unwrap();
    assert!(toggled.is_open);
    let toggled_back = el.summary_activation_behavior(Some(toggled)).unwrap();
    assert!(!toggled_back.is_open);
}

#[test]
fn summary_that_is_not_first_does_not_toggle() {
    let el = summary_element(6);
    let parent = ParentNode {
        kind: ElementKind::Details,
        is_open: false,
        children: vec![
            ChildRef { id: 5, kind: ElementKind::Summary },
            ChildRef { id: 6, kind: ElementKind::Summary },
        ],
    };
    assert!(!el.is_summary_for_its_parent_details(&Some(parent.clone())));
    let after = el.summary_activation_behavior(Some(parent)).unwrap();
    assert!(!after.is_open);
}

#[test]
fn summary_without_details_parent_does_not_toggle() {
    let el = summary_element(5);
    assert!(!el.is_summary_for_its_parent_details(&None));
    assert!(el.summary_activation_behavior(None).is_none());
    let parent = ParentNode {
        kind: ElementKind::Other,
        is_open: false,
        children: vec![ChildRef { id: 5, kind: ElementKind::Summary }],
    };
    assert!(!el.is_summary_for_its_parent_details(&Some(parent.clone())));
    let after = el.summary_activation_behavior(Some(parent)).unwrap();
    assert!(!after.is_open);
}

fn text(s: &str) -> InnerTextItem {
    InnerTextItem::Text(s.to_string())
}

#[test]
fn inner_text_splits_lines_into_breaks() {
    assert_eq!(
        inner_text_fragments("ab\ncd"),
        vec![text("ab"), InnerTextItem::LineBreak, text("cd")]
    );
    assert_eq!(inner_text_fragments(""), Vec::<InnerTextItem>::new());
    assert_eq!(inner_text_fragments("ab"), vec![text("ab")]);
    assert_eq!(
        inner_text_fragments("a\n"),
        vec![text("a"), InnerTextItem::LineBreak]
    );
    assert_eq!(
        inner_text_fragments("\n\n"),
        vec![InnerTextItem::LineBreak, InnerTextItem::LineBreak]
    );
}

#[test]
fn inner_text_collapses_crlf_to_one_break() {
    assert_eq!(
        inner_text_fragments("a\r\nb"),
        vec![text("a"), InnerTextItem::LineBreak, text("b")]
    );
    assert_eq!(
        inner_text_fragments("a\rb"),
        vec![text("a"), InnerTextItem::LineBreak, text("b")]
    );
    assert_eq!(
        inner_text_fragments("a\n\rb"),
        vec![
            text("a"),
            InnerTextItem::LineBreak,
            InnerTextItem::LineBreak,
            text("b")
        ]
    );
}

#[test]
fn pre_element_wraps_the_generic_element() {
    let el = HTMLElement::new_inherited(
        9,
        ElementKind::Pre,
        InputType::Other,
        DirAttribute::Unset,
        None,
    );
    let pre = HTMLPreElement::new(el);
    assert_eq!(pre.htmlelement.id, 9);
    assert_eq!(pre.htmlelement.kind, ElementKind::Pre);
}
