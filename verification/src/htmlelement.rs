//! A plain-value model of the generic HTML element: its attribute list, the
//! dataset (`data-*`) attribute access built on [`crate::dataset`], the
//! label-association and directionality queries, and the disclosure-toggle
//! activation of a summary element.
//!
//! The surrounding document tree, style system and script bindings are
//! external collaborators.  What this module's logic reads of them is passed
//! in as plain values: the element's kind as a closed enum, node identity as
//! an integer, and the label elements of the tree or the element's parent as
//! explicit context arguments.

use vstd::prelude::*;

verus! {

use crate::dataset::{
    MalformedNameError, decode_attribute_name, decoded_property_name, encode_property_name,
    encoded_attribute_name, malformed_property_name, validate_property_name,
};

/// The element kinds this model distinguishes; every other element is
/// `Other`.
#[derive(Clone, Copy, Debug, PartialEq, Eq, Structural)]
pub enum ElementKind {
    Body,
    Button,
    Details,
    FieldSet,
    FrameSet,
    Input,
    Meter,
    Object,
    Output,
    Pre,
    Progress,
    Select,
    Summary,
    TextArea,
    Other,
}

/// The states of an input element's `type` that this model distinguishes.
#[derive(Clone, Copy, Debug, PartialEq, Eq, Structural)]
pub enum InputType {
    Hidden,
    Tel,
    Other,
}

/// The enumerated state of the `dir` content attribute.
#[derive(Clone, Copy, Debug, PartialEq, Eq, Structural)]
pub enum DirAttribute {
    Ltr,
    Rtl,
    Auto,
    Unset,
}

/// A directionality, as the directionality query reports it.
#[derive(Clone, Copy, Debug, PartialEq, Eq, Structural)]
pub enum Direction {
    Ltr,
    Rtl,
}

/// One content attribute: its serialized local name and its value.
#[derive(Clone, Debug)]
pub struct Attribute {
    pub name: String,
    pub value: String,
}

/// The mathematical value of an [`Attribute`].
#[verifier::ext_equal]
pub struct AttrView {
    pub name: Seq<char>,
    pub value: Seq<char>,
}

impl View for Attribute {
    type V = AttrView;

    open spec fn view(&self) -> AttrView {
        AttrView { name: self.name@, value: self.value@ }
    }
}

/// A label element of the tree, in tree order: its node identity and the
/// node identity of the control it is associated with, if any.
#[derive(Clone, Copy, Debug, PartialEq, Eq, Structural)]
pub struct LabelRef {
    pub node: u64,
    pub control: Option<u64>,
}

/// A child element of a node: its node identity and kind.
#[derive(Clone, Copy, Debug, PartialEq, Eq, Structural)]
pub struct ChildRef {
    pub id: u64,
    pub kind: ElementKind,
}

/// What the summary activation steps read and change of the element's
/// parent node: its kind, its element children in tree order, and, for a
/// details element, whether it is open.
#[derive(Clone, Debug)]
pub struct ParentNode {
    pub kind: ElementKind,
    pub is_open: bool,
    pub children: Vec<ChildRef>,
}

/// The mathematical value of a [`ParentNode`].
#[verifier::ext_equal]
pub struct ParentModel {
    pub kind: ElementKind,
    pub is_open: bool,
    pub children: Seq<ChildRef>,
}

impl View for ParentNode {
    type V = ParentModel;

    open spec fn view(&self) -> ParentModel {
        ParentModel { kind: self.kind, is_open: self.is_open, children: self.children@ }
    }
}

/// The generic HTML element, modelled by plain values: its node identity,
/// its kind, the states the directionality query reads, and its attribute
/// list.
#[derive(Clone, Debug)]
pub struct HTMLElement {
    pub id: u64,
    pub kind: ElementKind,
    pub input_type: InputType,
    pub dir: DirAttribute,
    pub auto_direction: Option<Direction>,
    pub attrs: Vec<Attribute>,
}

/// The mathematical value of an [`HTMLElement`].
#[verifier::ext_equal]
pub struct ElementModel {
    pub id: u64,
    pub kind: ElementKind,
    pub input_type: InputType,
    pub dir: DirAttribute,
    pub auto_direction: Option<Direction>,
    pub attrs: Seq<AttrView>,
}

impl View for HTMLElement {
    type V = ElementModel;

    open spec fn view(&self) -> ElementModel {
        ElementModel {
            id: self.id,
            kind: self.kind,
            input_type: self.input_type,
            dir: self.dir,
            auto_direction: self.auto_direction,
            attrs: attr_views(self.attrs@),
        }
    }
}

/// The mathematical values of a list of attributes.
pub open spec fn attr_views(s: Seq<Attribute>) -> Seq<AttrView> {
    s.map_values(|a: Attribute| a@)
}

/// True iff the two strings hold the same characters.
fn str_eq(a: &str, b: &str) -> (r: bool)
    ensures
        r == (a@ == b@),
{
    let n = a.unicode_len();
    let m = b.unicode_len();
    if n != m {
        return false;
    }
    let mut i: usize = 0;
    while i < n
        invariant
            i <= n,
            n == a@.len(),
            n == b@.len(),
            forall|j: int| 0 <= j < i ==> a@[j] == b@[j],
        decreases n - i,
    {
        let ca = a.get_char(i);
        let cb = b.get_char(i);
        if ca != cb {
            return false;
        }
        i = i + 1;
    }
    proof {
        assert(a@ =~= b@);
    }
    true
}

/// The index of the first attribute named `name`, if any.
fn find_attr(attrs: &Vec<Attribute>, name: &str) -> (r: Option<usize>)
    ensures
        match r {
            Some(i) => i < attrs@.len() && attr_views(attrs@)[i as int].name == name@ && (forall|
                j: int,
            |
                0 <= j < i ==> attr_views(attrs@)[j].name != name@),
            None => forall|j: int| 0 <= j < attrs@.len() ==> attr_views(attrs@)[j].name != name@,
        },
{
    let n = attrs.len();
    let mut i: usize = 0;
    while i < n
        invariant
            i <= n,
            n == attrs@.len(),
            forall|j: int| 0 <= j < i ==> attr_views(attrs@)[j].name != name@,
        decreases n - i,
    {
        proof {
            assert(attr_views(attrs@)[i as int] == attrs@[i as int]@);
        }
        if str_eq(attrs[i].name.as_str(), name) {
            return Some(i);
        }
        i = i + 1;
    }
    None
}

/// Setting an attribute already present at index `k` replaces it in place.
proof fn lemma_set_attr_update(s: Seq<AttrView>, name: Seq<char>, value: Seq<char>, k: int)
    requires
        0 <= k < s.len(),
        s[k].name == name,
        forall|j: int| 0 <= j < k ==> s[j].name != name,
    ensures
        spec_set_attr(s, name, value) == s.update(k, AttrView { name, value }),
    decreases k,
{
    if k == 0 {
        assert(spec_set_attr(s, name, value) =~= s.update(0, AttrView { name, value }));
    } else {
        assert(s[0].name != name);
        assert forall|j: int| 0 <= j < k - 1 implies s.drop_first()[j].name != name by {
            assert(s.drop_first()[j] == s[j + 1]);
        }
        assert(s.drop_first()[k - 1] == s[k]);
        lemma_set_attr_update(s.drop_first(), name, value, k - 1);
        assert(spec_set_attr(s, name, value) =~= s.update(k, AttrView { name, value }));
    }
}

/// Setting an attribute no existing attribute is named like appends it.
proof fn lemma_set_attr_push(s: Seq<AttrView>, name: Seq<char>, value: Seq<char>)
    requires
        forall|j: int| 0 <= j < s.len() ==> s[j].name != name,
    ensures
        spec_set_attr(s, name, value) == s.push(AttrView { name, value }),
    decreases s.len(),
{
    if s.len() == 0 {
        assert(spec_set_attr(s, name, value) =~= s.push(AttrView { name, value }));
    } else {
        assert forall|j: int| 0 <= j < s.drop_first().len() implies s.drop_first()[j].name
            != name by {
            assert(s.drop_first()[j] == s[j + 1]);
        }
        lemma_set_attr_push(s.drop_first(), name, value);
        assert(spec_set_attr(s, name, value) =~= s.push(AttrView { name, value }));
    }
}

/// Looking an attribute up finds the one at index `k` when no earlier
/// attribute is named like it.
proof fn lemma_lookup_attr_at(s: Seq<AttrView>, name: Seq<char>, k: int)
    requires
        0 <= k < s.len(),
        s[k].name == name,
        forall|j: int| 0 <= j < k ==> s[j].name != name,
    ensures
        spec_lookup_attr(s, name) == Some(s[k].value),
    decreases k,
{
    if k == 0 {
    } else {
        assert(s[0].name != name);
        assert forall|j: int| 0 <= j < k - 1 implies s.drop_first()[j].name != name by {
            assert(s.drop_first()[j] == s[j + 1]);
        }
        assert(s.drop_first()[k - 1] == s[k]);
        lemma_lookup_attr_at(s.drop_first(), name, k - 1);
    }
}

/// Looking up a name no attribute has finds nothing.
proof fn lemma_lookup_attr_none(s: Seq<AttrView>, name: Seq<char>)
    requires
        forall|j: int| 0 <= j < s.len() ==> s[j].name != name,
    ensures
        spec_lookup_attr(s, name) is None,
    decreases s.len(),
{
    if s.len() > 0 {
        assert forall|j: int| 0 <= j < s.drop_first().len() implies s.drop_first()[j].name
            != name by {
            assert(s.drop_first()[j] == s[j + 1]);
        }
        lemma_lookup_attr_none(s.drop_first(), name);
    }
}

/// Removing an attribute present at index `k` deletes exactly that entry.
proof fn lemma_remove_attr_at(s: Seq<AttrView>, name: Seq<char>, k: int)
    requires
        0 <= k < s.len(),
        s[k].name == name,
        forall|j: int| 0 <= j < k ==> s[j].name != name,
    ensures
        spec_remove_attr(s, name) == s.remove(k),
    decreases k,
{
    if k == 0 {
        assert(spec_remove_attr(s, name) =~= s.remove(0));
    } else {
        assert(s[0].name != name);
        assert forall|j: int| 0 <= j < k - 1 implies s.drop_first()[j].name != name by {
            assert(s.drop_first()[j] == s[j + 1]);
        }
        assert(s.drop_first()[k - 1] == s[k]);
        lemma_remove_attr_at(s.drop_first(), name, k - 1);
        assert(spec_remove_attr(s, name) =~= s.remove(k));
    }
}

/// Removing a name no attribute has changes nothing.
proof fn lemma_remove_attr_none(s: Seq<AttrView>, name: Seq<char>)
    requires
        forall|j: int| 0 <= j < s.len() ==> s[j].name != name,
    ensures
        spec_remove_attr(s, name) == s,
    decreases s.len(),
{
    if s.len() > 0 {
        assert forall|j: int| 0 <= j < s.drop_first().len() implies s.drop_first()[j].name
            != name by {
            assert(s.drop_first()[j] == s[j + 1]);
        }
        lemma_remove_attr_none(s.drop_first(), name);
        assert(spec_remove_attr(s, name) =~= s);
    }
}

/// `spec_prop_names` distributes over concatenation.
proof fn lemma_prop_names_add(a: Seq<AttrView>, b: Seq<AttrView>)
    ensures
        spec_prop_names(a + b) == spec_prop_names(a) + spec_prop_names(b),
    decreases a.len(),
{
    if a.len() == 0 {
        assert(a + b =~= b);
        assert(spec_prop_names(a) + spec_prop_names(b) =~= spec_prop_names(b));
    } else {
        assert((a + b).drop_first() =~= a.drop_first() + b);
        lemma_prop_names_add(a.drop_first(), b);
        assert(spec_prop_names(a + b) =~= spec_prop_names(a) + spec_prop_names(b));
    }
}

/// The value of the first attribute named `name`, if any.
pub open spec fn spec_lookup_attr(attrs: Seq<AttrView>, name: Seq<char>) -> Option<Seq<char>>
    decreases attrs.len(),
{
    if attrs.len() == 0 {
        None
    } else if attrs[0].name == name {
        Some(attrs[0].value)
    } else {
        spec_lookup_attr(attrs.drop_first(), name)
    }
}

/// The attribute list after setting `name` to `value`: the first attribute
/// so named is replaced in place, or a new attribute is appended.
pub open spec fn spec_set_attr(attrs: Seq<AttrView>, name: Seq<char>, value: Seq<char>) -> Seq<
    AttrView,
>
    decreases attrs.len(),
{
    if attrs.len() == 0 {
        seq![AttrView { name, value }]
    } else if attrs[0].name == name {
        seq![AttrView { name, value }] + attrs.drop_first()
    } else {
        seq![attrs[0]] + spec_set_attr(attrs.drop_first(), name, value)
    }
}

/// The attribute list after removing the first attribute named `name`, if
/// any.
pub open spec fn spec_remove_attr(attrs: Seq<AttrView>, name: Seq<char>) -> Seq<AttrView>
    decreases attrs.len(),
{
    if attrs.len() == 0 {
        Seq::empty()
    } else if attrs[0].name == name {
        attrs.drop_first()
    } else {
        seq![attrs[0]] + spec_remove_attr(attrs.drop_first(), name)
    }
}

/// The dataset property names of an attribute list, in attribute order:
/// each attribute name that decodes as a dataset entry contributes its
/// decoded property name.
pub open spec fn spec_prop_names(attrs: Seq<AttrView>) -> Seq<Seq<char>>
    decreases attrs.len(),
{
    if attrs.len() == 0 {
        Seq::empty()
    } else {
        match decoded_property_name(attrs[0].name) {
            Some(p) => seq![p] + spec_prop_names(attrs.drop_first()),
            None => spec_prop_names(attrs.drop_first()),
        }
    }
}

/// The label elements associated with the control whose node identity is
/// `id`, in tree order.
pub open spec fn spec_labels_of(labels: Seq<LabelRef>, id: u64) -> Seq<LabelRef> {
    labels.filter(|l: LabelRef| l.control == Some(id))
}

/// The node identity of the first child element that is a summary element,
/// if any.
pub open spec fn spec_first_summary(children: Seq<ChildRef>) -> Option<u64>
    decreases children.len(),
{
    if children.len() == 0 {
        None
    } else if children[0].kind is Summary {
        Some(children[0].id)
    } else {
        spec_first_summary(children.drop_first())
    }
}

/// The value of an `Option<ParentNode>`.
pub open spec fn spec_parent_view(parent: Option<ParentNode>) -> Option<ParentModel> {
    match parent {
        Some(p) => Some(p@),
        None => None,
    }
}

/// A summary element activates exactly when it has a parent, the parent is
/// a details element, and the element is the parent's first summary child.
pub open spec fn spec_summary_activates(id: u64, parent: Option<ParentModel>) -> bool {
    match parent {
        Some(p) => p.kind is Details && spec_first_summary(p.children) == Some(id),
        None => false,
    }
}

/// Whether an element of this kind and input type is labelable.
pub open spec fn spec_labelable(kind: ElementKind, input_type: InputType) -> bool {
    match kind {
        ElementKind::Input => !(input_type is Hidden),
        ElementKind::Button => true,
        ElementKind::Meter => true,
        ElementKind::Output => true,
        ElementKind::Progress => true,
        ElementKind::Select => true,
        ElementKind::TextArea => true,
        _ => false,
    }
}

/// Whether an element of this kind is listed in form association.
pub open spec fn spec_listed(kind: ElementKind) -> bool {
    match kind {
        ElementKind::Button => true,
        ElementKind::FieldSet => true,
        ElementKind::Input => true,
        ElementKind::Object => true,
        ElementKind::Output => true,
        ElementKind::Select => true,
        ElementKind::TextArea => true,
        _ => false,
    }
}

/// The directionality an element reports by itself, without consulting its
/// parent: the `dir` attribute when it is `ltr` or `rtl`; forced `ltr` for a
/// telephone input; the value-inferred directionality for an input or text
/// area whose `dir` is `auto`; otherwise nothing, and the caller must go up
/// to the parent.
pub open spec fn spec_directionality(e: ElementModel) -> Option<Direction> {
    if e.dir is Ltr {
        Some(Direction::Ltr)
    } else if e.dir is Rtl {
        Some(Direction::Rtl)
    } else if e.kind is Input && e.input_type is Tel {
        Some(Direction::Ltr)
    } else if e.dir is Auto && e.kind is Input && e.auto_direction is Some {
        e.auto_direction
    } else if e.dir is Auto && e.kind is TextArea {
        e.auto_direction
    } else {
        None
    }
}

impl HTMLElement {
    /// The element's internal invariant: attribute names are unique, and a
    /// text area always carries a value-inferred directionality.
    pub open spec fn wf(&self) -> bool {
        &&& (forall|i: int, j: int|
            0 <= i < j < self@.attrs.len() ==> self@.attrs[i].name != self@.attrs[j].name)
        &&& (self.kind is TextArea ==> self.auto_direction is Some)
    }

    /// A fresh element with an empty attribute list.
    pub fn new_inherited(
        id: u64,
        kind: ElementKind,
        input_type: InputType,
        dir: DirAttribute,
        auto_direction: Option<Direction>,
    ) -> (r: HTMLElement)
        requires
            kind is TextArea ==> auto_direction is Some,
        ensures
            r@ == (ElementModel {
                id,
                kind,
                input_type,
                dir,
                auto_direction,
                attrs: Seq::empty(),
            }),
            r.wf(),
    {
        let r = HTMLElement { id, kind, input_type, dir, auto_direction, attrs: Vec::new() };
        proof {
            assert(r@.attrs =~= Seq::<AttrView>::empty());
        }
        r
    }

    /// Whether the element is the body or frameset element, whose event
    /// handler attributes reflect onto the window.
    pub fn is_body_or_frameset(&self) -> (r: bool)
        ensures
            r == (self.kind is Body || self.kind is FrameSet),
    {
        matches!(self.kind, ElementKind::Body | ElementKind::FrameSet)
    }

    /// Whether the element can be associated with a label: a button, meter,
    /// output, progress, select or text area element, or an input element
    /// that is not hidden.
    pub fn is_labelable_element(&self) -> (r: bool)
        ensures
            r == spec_labelable(self.kind, self.input_type),
    {
        match self.kind {
            ElementKind::Input => !matches!(self.input_type, InputType::Hidden),
            ElementKind::Button
            | ElementKind::Meter
            | ElementKind::Output
            | ElementKind::Progress
            | ElementKind::Select
            | ElementKind::TextArea => true,
            _ => false,
        }
    }

    /// Whether the element is listed in form association: a button,
    /// fieldset, input, object, output, select or text area element.
    pub fn is_listed_element(&self) -> (r: bool)
        ensures
            r == spec_listed(self.kind),
    {
        match self.kind {
            ElementKind::Button
            | ElementKind::FieldSet
            | ElementKind::Input
            | ElementKind::Object
            | ElementKind::Output
            | ElementKind::Select
            | ElementKind::TextArea => true,
            _ => false,
        }
    }

    /// Write a dataset property: reject a malformed property name with
    /// [`MalformedNameError`], else set the serialized `data-*` attribute to
    /// `value`, replacing the attribute in place when it already exists and
    /// appending it otherwise.
    pub fn set_custom_attr(&mut self, name: String, value: String) -> (r: Result<
        (),
        MalformedNameError,
    >)
        requires
            old(self).wf(),
        ensures
            final(self).wf(),
            r is Err <==> malformed_property_name(name@),
            r is Err ==> final(self)@ == old(self)@,
            r is Ok ==> final(self)@ == (ElementModel {
                attrs: spec_set_attr(old(self)@.attrs, encoded_attribute_name(name@), value@),
                ..old(self)@
            }),
    {
        if let Err(e) = validate_property_name(name.as_str()) {
            return Err(e);
        }
        let key = encode_property_name(name.as_str());
        let ghost old_attrs = self@.attrs;
        match find_attr(&self.attrs, key.as_str()) {
            Some(i) => {
                proof {
                    lemma_set_attr_update(old_attrs, key@, value@, i as int);
                }
                self.attrs[i] = Attribute { name: key, value };
                proof {
                    assert(self@.attrs =~= old_attrs.update(
                        i as int,
                        AttrView { name: key@, value: value@ },
                    ));
                    assert(self@ =~= (ElementModel { attrs: self@.attrs, ..old(self)@ }));
                    assert forall|x: int, y: int|
                        0 <= x < y < self@.attrs.len() implies self@.attrs[x].name
                        != self@.attrs[y].name by {
                        assert(old_attrs[x].name != old_attrs[y].name);
                    }
                }
            },
            None => {
                proof {
                    lemma_set_attr_push(old_attrs, key@, value@);
                }
                self.attrs.push(Attribute { name: key, value });
                proof {
                    assert(self@.attrs =~= old_attrs.push(
                        AttrView { name: key@, value: value@ },
                    ));
                    assert(self@ =~= (ElementModel { attrs: self@.attrs, ..old(self)@ }));
                    assert forall|x: int, y: int|
                        0 <= x < y < self@.attrs.len() implies self@.attrs[x].name
                        != self@.attrs[y].name by {
                        if y < old_attrs.len() {
                            assert(old_attrs[x].name != old_attrs[y].name);
                        }
                    }
                }
            },
        }
        Ok(())
    }

    /// Read a dataset property: the value of the attribute whose name is the
    /// serialized form of `local_name`, if the element has it.
    pub fn get_custom_attr(&self, local_name: String) -> (r: Option<String>)
        ensures
            match r {
                Some(v) => spec_lookup_attr(self@.attrs, encoded_attribute_name(local_name@))
                    == Some(v@),
                None => spec_lookup_attr(self@.attrs, encoded_attribute_name(local_name@))
                    is None,
            },
    {
        let key = encode_property_name(local_name.as_str());
        match find_attr(&self.attrs, key.as_str()) {
            Some(i) => {
                proof {
                    lemma_lookup_attr_at(self@.attrs, key@, i as int);
                }
                Some(self.attrs[i].value.clone())
            },
            None => {
                proof {
                    lemma_lookup_attr_none(self@.attrs, key@);
                }
                None
            },
        }
    }

    /// Remove a dataset property: delete the attribute whose name is the
    /// serialized form of `local_name`; an element without it is left
    /// unchanged.
    pub fn delete_custom_attr(&mut self, local_name: String)
        requires
            old(self).wf(),
        ensures
            final(self).wf(),
            final(self)@ == (ElementModel {
                attrs: spec_remove_attr(
                    old(self)@.attrs,
                    encoded_attribute_name(local_name@),
                ),
                ..old(self)@
            }),
    {
        let key = encode_property_name(local_name.as_str());
        let ghost old_attrs = self@.attrs;
        match find_attr(&self.attrs, key.as_str()) {
            Some(i) => {
                proof {
                    lemma_remove_attr_at(old_attrs, key@, i as int);
                }
                self.attrs.remove(i);
                proof {
                    assert(self@.attrs =~= old_attrs.remove(i as int));
                    assert(self@ =~= (ElementModel { attrs: self@.attrs, ..old(self)@ }));
                    assert forall|x: int, y: int|
                        0 <= x < y < self@.attrs.len() implies self@.attrs[x].name
                        != self@.attrs[y].name by {
                        let ox: int = if x < i { x } else { x + 1 };
                        let oy: int = if y < i { y } else { y + 1 };
                        assert(self@.attrs[x] == old_attrs[ox]);
                        assert(self@.attrs[y] == old_attrs[oy]);
                        assert(old_attrs[ox].name != old_attrs[oy].name);
                    }
                }
            },
            None => {
                proof {
                    lemma_remove_attr_none(old_attrs, key@);
                    assert(self@ =~= (ElementModel { attrs: self@.attrs, ..old(self)@ }));
                }
            },
        }
    }

    /// The dataset property names the element supports: the decoded form of
    /// each attribute name that is a dataset entry, in attribute order.
    pub fn supported_prop_names_custom_attr(&self) -> (r: Vec<String>)
        ensures
            r.deep_view() == spec_prop_names(self@.attrs),
    {
        let mut result: Vec<String> = Vec::new();
        let n = self.attrs.len();
        proof {
            assert(self@.attrs.take(0) =~= Seq::<AttrView>::empty());
            assert(result.deep_view() =~= spec_prop_names(self@.attrs.take(0)));
        }
        let mut i: usize = 0;
        while i < n
            invariant
                i <= n,
                n == self.attrs@.len(),
                self@.attrs.len() == n,
                result.deep_view() == spec_prop_names(self@.attrs.take(i as int)),
            decreases n - i,
        {
            let ghost done = self@.attrs.take(i as int);
            let ghost one = seq![self@.attrs[i as int]];
            proof {
                assert(self@.attrs.take(i + 1) =~= done + one);
                lemma_prop_names_add(done, one);
                assert(one.drop_first() =~= Seq::<AttrView>::empty());
                reveal_with_fuel(spec_prop_names, 3);
            }
            let ghost before = result.deep_view();
            match decode_attribute_name(self.attrs[i].name.as_str()) {
                Some(p) => {
                    result.push(p);
                    proof {
                        assert(result.deep_view() =~= before + spec_prop_names(one));
                    }
                },
                None => {
                    proof {
                        assert(result.deep_view() =~= before + spec_prop_names(one));
                    }
                },
            }
            proof {
                assert(result.deep_view() =~= spec_prop_names(self@.attrs.take(i + 1)));
            }
            i = i + 1;
        }
        proof {
            assert(self@.attrs.take(n as int) =~= self@.attrs);
        }
        result
    }

    /// The directionality the element can infer by itself or from its own
    /// value; `None` when the answer must come from the parent.
    pub fn directionality(&self) -> (r: Option<Direction>)
        ensures
            r == spec_directionality(self@),
    {
        match self.dir {
            DirAttribute::Ltr => {
                return Some(Direction::Ltr);
            },
            DirAttribute::Rtl => {
                return Some(Direction::Rtl);
            },
            _ => {},
        }
        if matches!(self.kind, ElementKind::Input) && matches!(self.input_type, InputType::Tel) {
            return Some(Direction::Ltr);
        }
        if matches!(self.dir, DirAttribute::Auto) {
            if matches!(self.kind, ElementKind::Input) {
                if let Some(d) = self.auto_direction {
                    return Some(d);
                }
            }
            if matches!(self.kind, ElementKind::TextArea) {
                return self.auto_direction;
            }
        }
        None
    }

    /// The number of label elements associated with this element, given the
    /// label elements of its tree in tree order.
    pub fn labels_count(&self, labels: &Vec<LabelRef>) -> (r: u32)
        requires
            labels@.len() <= u32::MAX,
        ensures
            r as nat == spec_labels_of(labels@, self.id).len(),
    {
        let n = labels.len();
        let mut count: u32 = 0;
        proof {
            reveal(Seq::filter);
            assert(labels@.take(0) =~= Seq::<LabelRef>::empty());
        }
        let mut i: usize = 0;
        while i < n
            invariant
                i <= n,
                n == labels@.len(),
                n <= u32::MAX,
                count <= i,
                count as nat == spec_labels_of(labels@.take(i as int), self.id).len(),
            decreases n - i,
        {
            proof {
                reveal(Seq::filter);
                assert(labels@.take(i + 1).drop_last() =~= labels@.take(i as int));
                assert(labels@.take(i + 1).last() == labels@[i as int]);
            }
            let l = labels[i];
            let matched = match l.control {
                Some(c) => c == self.id,
                None => false,
            };
            if matched {
                count = count + 1;
            }
            i = i + 1;
        }
        proof {
            assert(labels@.take(n as int) =~= labels@);
        }
        count
    }

    /// The label element associated with this element at position `index`
    /// in tree order, if there are more than `index` such labels, given the
    /// label elements of its tree in tree order.
    pub fn label_at(&self, labels: &Vec<LabelRef>, index: u32) -> (r: Option<u64>)
        ensures
            ({
                let m = spec_labels_of(labels@, self.id);
                if (index as int) < m.len() {
                    r == Some(m[index as int].node)
                } else {
                    r is None
                }
            }),
    {
        let n = labels.len();
        let mut count: usize = 0;
        proof {
            reveal(Seq::filter);
            assert(labels@.take(0) =~= Seq::<LabelRef>::empty());
        }
        let mut i: usize = 0;
        while i < n
            invariant
                i <= n,
                n == labels@.len(),
                count <= i,
                count as nat == spec_labels_of(labels@.take(i as int), self.id).len(),
                count <= index as int,
            decreases n - i,
        {
            proof {
                reveal(Seq::filter);
                assert(labels@.take(i + 1).drop_last() =~= labels@.take(i as int));
                assert(labels@.take(i + 1).last() == labels@[i as int]);
            }
            let l = labels[i];
            let matched = match l.control {
                Some(c) => c == self.id,
                None => false,
            };
            if matched {
                if count == index as usize {
                    proof {
                        let taken = labels@.take(i + 1);
                        let rest = labels@.skip(i + 1);
                        assert(labels@ =~= taken + rest);
                        Seq::filter_distributes_over_add(
                            taken,
                            rest,
                            |l: LabelRef| l.control == Some(self.id),
                        );
                        assert(spec_labels_of(taken, self.id)[index as int] == labels@[i as int]);
                        let got = spec_labels_of(labels@, self.id)[index as int];
                        assert(got == labels@[i as int]);
                    }
                    return Some(l.node);
                }
                count = count + 1;
            }
            i = i + 1;
        }
        proof {
            assert(labels@.take(n as int) =~= labels@);
        }
        None
    }

    /// Whether this element is the summary for its parent details: it has a
    /// parent, the parent is a details element, and this element is the
    /// parent's first summary child.
    pub fn is_summary_for_its_parent_details(&self, parent: &Option<ParentNode>) -> (r: bool)
        ensures
            r == spec_summary_activates(self.id, spec_parent_view(*parent)),
    {
        match parent {
            None => false,
            Some(p) => {
                if !matches!(p.kind, ElementKind::Details) {
                    return false;
                }
                match first_summary_child(&p.children) {
                    Some(summary_id) => summary_id == self.id,
                    None => false,
                }
            },
        }
    }

    /// The activation behaviour of a summary element: when this element is
    /// the summary for its parent details, the parent details element is
    /// toggled between open and closed; otherwise nothing changes.  The
    /// parent is handed in and the possibly toggled parent handed back.
    pub fn summary_activation_behavior(&self, parent: Option<ParentNode>) -> (r: Option<
        ParentNode,
    >)
        ensures
            ({
                let before = spec_parent_view(parent);
                if spec_summary_activates(self.id, before) {
                    spec_parent_view(r) == Some(
                        ParentModel { is_open: !before.unwrap().is_open, ..before.unwrap() },
                    )
                } else {
                    spec_parent_view(r) == before
                }
            }),
    {
        let activates = self.is_summary_for_its_parent_details(&parent);
        match parent {
            None => None,
            Some(mut p) => {
                if activates {
                    p.is_open = !p.is_open;
                }
                Some(p)
            },
        }
    }
}

/// One piece of an element's new inner text: a run of text that becomes a
/// text node, or a line break that becomes a `br` element.
#[derive(Clone, Debug, PartialEq, Eq)]
pub enum InnerTextItem {
    Text(String),
    LineBreak,
}

/// The mathematical value of an [`InnerTextItem`].
pub enum InnerTextItemView {
    Text(Seq<char>),
    LineBreak,
}

impl View for InnerTextItem {
    type V = InnerTextItemView;

    open spec fn view(&self) -> InnerTextItemView {
        match self {
            InnerTextItem::Text(t) => InnerTextItemView::Text(t@),
            InnerTextItem::LineBreak => InnerTextItemView::LineBreak,
        }
    }
}

/// The mathematical values of a list of inner text items.
pub open spec fn item_views(s: Seq<InnerTextItem>) -> Seq<InnerTextItemView> {
    s.map_values(|it: InnerTextItem| it@)
}

/// The pending text run as a (possibly empty) list of items.
pub open spec fn spec_flush_text(acc: Seq<char>) -> Seq<InnerTextItemView> {
    if acc.len() > 0 {
        seq![InnerTextItemView::Text(acc)]
    } else {
        Seq::empty()
    }
}

/// The items of the remaining input `s`, with `acc` the text run collected
/// so far: a line feed or carriage return ends the run and yields a line
/// break, a carriage return immediately followed by a line feed yields only
/// one, and every other character extends the run.
pub open spec fn spec_inner_text_items(s: Seq<char>, acc: Seq<char>) -> Seq<InnerTextItemView>
    decreases s.len(),
{
    if s.len() == 0 {
        spec_flush_text(acc)
    } else if s[0] == '\r' && s.len() >= 2 && s[1] == '\n' {
        spec_flush_text(acc) + seq![InnerTextItemView::LineBreak] + spec_inner_text_items(
            s.skip(2),
            Seq::empty(),
        )
    } else if s[0] == '\n' || s[0] == '\r' {
        spec_flush_text(acc) + seq![InnerTextItemView::LineBreak] + spec_inner_text_items(
            s.skip(1),
            Seq::empty(),
        )
    } else {
        spec_inner_text_items(s.skip(1), acc.push(s[0]))
    }
}

/// The computational step of assigning an element's inner text: split the
/// given text into the text nodes and `br` elements that replace the
/// element's contents.  A `\r\n` pair yields a single line break, and only
/// non-empty text runs yield text nodes.
pub fn inner_text_fragments(input: &str) -> (r: Vec<InnerTextItem>)
    ensures
        item_views(r@) == spec_inner_text_items(input@, Seq::empty()),
{
    let n = input.unicode_len();
    let mut result: Vec<InnerTextItem> = Vec::new();
    let mut text = String::new();
    proof {
        assert(input@.skip(0) =~= input@);
        assert(item_views(result@) =~= Seq::<InnerTextItemView>::empty());
        assert(item_views(result@) + spec_inner_text_items(input@, text@)
            =~= spec_inner_text_items(input@, Seq::empty()));
    }
    let mut i: usize = 0;
    while i < n
        invariant
            i <= n,
            n == input@.len(),
            item_views(result@) + spec_inner_text_items(input@.skip(i as int), text@)
                == spec_inner_text_items(input@, Seq::empty()),
        decreases n - i,
    {
        let ghost rem = input@.skip(i as int);
        let ghost res0 = item_views(result@);
        let ghost text0 = text@;
        proof {
            assert(rem[0] == input@[i as int]);
        }
        let c = input.get_char(i);
        if c == '\n' || c == '\r' {
            let crlf = c == '\r' && i + 1 < n && input.get_char(i + 1) == '\n';
            proof {
                if i + 1 < n {
                    assert(rem[1] == input@[i + 1]);
                }
            }
            if !text.as_str().is_empty() {
                result.push(InnerTextItem::Text(text));
                text = String::new();
            }
            result.push(InnerTextItem::LineBreak);
            let next = if crlf {
                i + 2
            } else {
                i + 1
            };
            proof {
                assert(text@ =~= Seq::<char>::empty());
                assert(item_views(result@) =~= res0 + spec_flush_text(text0) + seq![
                    InnerTextItemView::LineBreak,
                ]);
                if crlf {
                    assert(rem.skip(2) =~= input@.skip(next as int));
                } else {
                    assert(rem.skip(1) =~= input@.skip(next as int));
                }
                assert(item_views(result@) + spec_inner_text_items(
                    input@.skip(next as int),
                    text@,
                ) =~= res0 + spec_inner_text_items(rem, text0));
            }
            i = next;
        } else {
            crate::dataset::push_char(&mut text, c);
            proof {
                assert(rem.skip(1) =~= input@.skip(i + 1));
            }
            i = i + 1;
        }
    }
    let ghost fin0 = item_views(result@);
    let ghost text_fin = text@;
    if !text.as_str().is_empty() {
        result.push(InnerTextItem::Text(text));
    }
    proof {
        assert(input@.skip(n as int) =~= Seq::<char>::empty());
        assert(item_views(result@) =~= fin0 + spec_flush_text(text_fin));
    }
    result
}

/// The node identity of the first summary child, if any.
fn first_summary_child(children: &Vec<ChildRef>) -> (r: Option<u64>)
    ensures
        r == spec_first_summary(children@),
{
    let n = children.len();
    proof {
        assert(children@.skip(0) =~= children@);
    }
    let mut i: usize = 0;
    while i < n
        invariant
            i <= n,
            n == children@.len(),
            spec_first_summary(children@) == spec_first_summary(children@.skip(i as int)),
        decreases n - i,
    {
        let ghost rem = children@.skip(i as int);
        proof {
            assert(rem[0] == children@[i as int]);
        }
        let c = children[i];
        if matches!(c.kind, ElementKind::Summary) {
            return Some(c.id);
        }
        proof {
            assert(rem.drop_first() =~= children@.skip(i + 1));
        }
        i = i + 1;
    }
    None
}

} // verus!
