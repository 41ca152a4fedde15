//! Structured page model.
//!
//! A page is typed data, not a document string. Its content id is over the
//! canonical bytes of the bare page.

use crate::digest::{content_id, valid_content_id};
use crate::table::PairMap;
use crate::text::{byte_len, dec_chars, decimal, utf8_len};
use vstd::prelude::*;
use vstd::string::*;

pub use crate::digest::{content_id_of, is_content_id};

verus! {

/// The page schema.
pub const PAGE_SCHEMA: u32 = 1;

/// Most components of a page, nested ones counted.
pub const MAX_COMPONENTS: usize = 4096;

/// Most bytes of a text.
pub const MAX_TEXT_BYTES: usize = 256 * 1024;

/// Most bytes of a page or a resource.
pub const MAX_PAGE_BYTES: usize = 1024 * 1024;

/// Most levels of collections around a component.
pub const MAX_DEPTH: usize = 32;

/// Most bytes of a title.
pub const MAX_TITLE: usize = 256;

/// Most bytes of a link label.
pub const MAX_LABEL: usize = 1024;

/// Most bytes of an app id.
pub const MAX_APP_ID: usize = 128;

/// Why content is refused.
#[derive(Debug, Clone, PartialEq, Eq)]
pub enum ContentError {
    Validation(String),
    Serialization(String),
}

/// The mathematical value of a [`ContentError`].
pub enum ContentErrorView {
    Validation(Seq<char>),
    Serialization(Seq<char>),
}

impl View for ContentError {
    type V = ContentErrorView;

    open spec fn view(&self) -> ContentErrorView {
        match self {
            ContentError::Validation(s) => ContentErrorView::Validation(s@),
            ContentError::Serialization(s) => ContentErrorView::Serialization(s@),
        }
    }
}

/// A page.
#[derive(Debug, Clone, PartialEq, Eq)]
pub struct Page {
    pub metadata: Metadata,
    pub components: Vec<Component>,
    pub capabilities: Vec<Capability>,
}

/// What a page is.
#[derive(Debug, Clone, PartialEq, Eq)]
pub struct Metadata {
    pub schema: u32,
    pub site: String,
    pub path: String,
    pub title: String,
    pub revision: u64,
}

/// The properties of an app: none, or a JSON value in its compact text form.
#[derive(Debug, Clone, PartialEq, Eq)]
pub enum Props {
    Null,
    Json(String),
}

/// A part of a page.
#[derive(Debug, PartialEq, Eq)]
pub enum Component {
    Text { text: String },
    Heading { level: u8, text: String },
    Image { content_id: String, alt: String },
    Link { label: String, target: LinkTarget },
    Collection { items: Vec<Component> },
    App { app_id: String, props: Props },
}

/// Where a link leads.
#[derive(Debug, Clone, PartialEq, Eq)]
pub enum LinkTarget {
    Page { site: String, path: String },
    External { hint: String },
    Action { action_id: String },
}

/// What a page asks for.
#[derive(Debug, Clone, PartialEq, Eq)]
pub enum Capability {
    Storage { max_kb: u32 },
    Network { hosts: Vec<String> },
    Notify,
    Audio,
    Camera,
    Microphone,
}

/// The mathematical value of a [`LinkTarget`].
pub enum TargetView {
    Page { site: Seq<char>, path: Seq<char> },
    External { hint: Seq<char> },
    Action { action_id: Seq<char> },
}

impl View for LinkTarget {
    type V = TargetView;

    open spec fn view(&self) -> TargetView {
        match self {
            LinkTarget::Page { site, path } => TargetView::Page { site: site@, path: path@ },
            LinkTarget::External { hint } => TargetView::External { hint: hint@ },
            LinkTarget::Action { action_id } => TargetView::Action { action_id: action_id@ },
        }
    }
}

/// The mathematical value of a [`Component`].
pub enum ComponentView {
    Text { text: Seq<char> },
    Heading { level: u8, text: Seq<char> },
    Image { content_id: Seq<char>, alt: Seq<char> },
    Link { label: Seq<char>, target: TargetView },
    Collection { items: Seq<ComponentView> },
    App { app_id: Seq<char>, props: Option<Seq<char>> },
}

/// The JSON text of properties; nothing for none.
pub open spec fn props_view(p: Props) -> Option<Seq<char>> {
    match p {
        Props::Null => None,
        Props::Json(s) => Some(s@),
    }
}

/// The value of a component.
pub open spec fn component_view(c: Component) -> ComponentView
    decreases c,
{
    match c {
        Component::Text { text } => ComponentView::Text { text: text@ },
        Component::Heading { level, text } => ComponentView::Heading { level, text: text@ },
        Component::Image { content_id, alt } => ComponentView::Image {
            content_id: content_id@,
            alt: alt@,
        },
        Component::Link { label, target } => ComponentView::Link { label: label@, target: target@ },
        Component::Collection { items } => ComponentView::Collection { items: list_view(items@) },
        Component::App { app_id, props } => ComponentView::App {
            app_id: app_id@,
            props: props_view(props),
        },
    }
}

/// The values of components that stand side by side.
pub open spec fn list_view(items: Seq<Component>) -> Seq<ComponentView>
    decreases items,
{
    if items.len() == 0 {
        Seq::empty()
    } else {
        list_view(items.drop_last()).push(component_view(items.last()))
    }
}

impl View for Component {
    type V = ComponentView;

    open spec fn view(&self) -> ComponentView {
        component_view(*self)
    }
}

/// The mathematical value of a [`Capability`].
pub enum CapabilityView {
    Storage { max_kb: u32 },
    Network { hosts: Seq<Seq<char>> },
    Notify,
    Audio,
    Camera,
    Microphone,
}

/// The values of texts.
pub open spec fn texts(s: Seq<String>) -> Seq<Seq<char>> {
    Seq::new(s.len(), |i: int| s[i]@)
}

impl View for Capability {
    type V = CapabilityView;

    open spec fn view(&self) -> CapabilityView {
        match self {
            Capability::Storage { max_kb } => CapabilityView::Storage { max_kb: *max_kb },
            Capability::Network { hosts } => CapabilityView::Network { hosts: texts(hosts@) },
            Capability::Notify => CapabilityView::Notify,
            Capability::Audio => CapabilityView::Audio,
            Capability::Camera => CapabilityView::Camera,
            Capability::Microphone => CapabilityView::Microphone,
        }
    }
}

/// The mathematical value of a [`Page`].
pub struct PageView {
    pub schema: u32,
    pub site: Seq<char>,
    pub path: Seq<char>,
    pub title: Seq<char>,
    pub revision: u64,
    pub components: Seq<ComponentView>,
    pub capabilities: Seq<CapabilityView>,
}

/// The values of capabilities.
pub open spec fn capabilities_view(caps: Seq<Capability>) -> Seq<CapabilityView> {
    Seq::new(caps.len(), |i: int| caps[i]@)
}

impl View for Page {
    type V = PageView;

    open spec fn view(&self) -> PageView {
        PageView {
            schema: self.metadata.schema,
            site: self.metadata.site@,
            path: self.metadata.path@,
            title: self.metadata.title@,
            revision: self.metadata.revision,
            components: list_view(self.components@),
            capabilities: capabilities_view(self.capabilities@),
        }
    }
}

pub proof fn lemma_list_view(items: Seq<Component>)
    ensures
        list_view(items).len() == items.len(),
        forall|i: int| 0 <= i < items.len() ==> #[trigger] list_view(items)[i] == component_view(items[i]),
    decreases items.len(),
{
    if items.len() > 0 {
        lemma_list_view(items.drop_last());
        assert forall|i: int| 0 <= i < items.len() implies #[trigger] list_view(items)[i]
            == component_view(items[i]) by {
            if i < items.len() - 1 {
                assert(list_view(items)[i] == list_view(items.drop_last())[i]);
            }
        }
    }
}

/// A component and all that it holds, in document order, each with the
/// number of collections around it.
pub open spec fn nodes_of(c: ComponentView, depth: nat) -> Seq<(ComponentView, nat)>
    decreases c,
{
    match c {
        ComponentView::Collection { items } => seq![(c, depth)] + list_nodes(items, depth + 1),
        _ => seq![(c, depth)],
    }
}

/// The nodes of components that stand side by side.
pub open spec fn list_nodes(items: Seq<ComponentView>, depth: nat) -> Seq<(ComponentView, nat)>
    decreases items,
{
    if items.len() == 0 {
        Seq::empty()
    } else {
        list_nodes(items.drop_last(), depth) + nodes_of(items.last(), depth)
    }
}

/// What is wrong with a component in itself.
pub open spec fn own_flaw(c: ComponentView) -> Option<Seq<char>> {
    match c {
        ComponentView::Text { text } => if byte_len(text) > MAX_TEXT_BYTES {
            Some("text too large"@)
        } else {
            None
        },
        ComponentView::Heading { level, text } => if byte_len(text) > MAX_TEXT_BYTES {
            Some("text too large"@)
        } else if !(1 <= level <= 6) {
            Some("bad heading level"@)
        } else {
            None
        },
        ComponentView::Image { content_id, .. } => if !valid_content_id(content_id) {
            Some("bad content id "@ + content_id)
        } else {
            None
        },
        ComponentView::Link { label, .. } => if label.len() == 0 || byte_len(label) > MAX_LABEL {
            Some("bad link label"@)
        } else {
            None
        },
        ComponentView::Collection { .. } => None,
        ComponentView::App { app_id, .. } => if app_id.len() == 0 || byte_len(app_id)
            > MAX_APP_ID {
            Some("bad app id"@)
        } else {
            None
        },
    }
}

/// What is wrong with the node that has `before` nodes before it.
pub open spec fn flaw_at(node: (ComponentView, nat), before: nat) -> Option<Seq<char>> {
    if before >= MAX_COMPONENTS {
        Some("too many components"@)
    } else if node.1 > MAX_DEPTH {
        Some("component tree too deep"@)
    } else {
        own_flaw(node.0)
    }
}

/// The flaw of the first flawed node, where `before` nodes stand before all
/// of them.
pub open spec fn first_flaw(nodes: Seq<(ComponentView, nat)>, before: nat) -> Option<Seq<char>>
    decreases nodes.len(),
{
    if nodes.len() == 0 {
        None
    } else {
        match flaw_at(nodes[0], before) {
            Some(e) => Some(e),
            None => first_flaw(nodes.skip(1), before + 1),
        }
    }
}

/// The first thing that is wrong with a page.
pub open spec fn page_flaw(p: PageView) -> Option<Seq<char>> {
    if p.schema != PAGE_SCHEMA {
        Some("unsupported schema "@ + dec_chars(p.schema as nat))
    } else if p.title.len() == 0 || byte_len(p.title) > MAX_TITLE {
        Some("bad title length"@)
    } else if p.components.len() == 0 {
        Some("page has no components"@)
    } else if p.components.len() > MAX_COMPONENTS {
        Some("too many components"@)
    } else {
        first_flaw(list_nodes(p.components, 0), 0)
    }
}

proof fn lemma_first_flaw_concat(
    a: Seq<(ComponentView, nat)>,
    b: Seq<(ComponentView, nat)>,
    before: nat,
)
    ensures
        first_flaw(a + b, before) == match first_flaw(a, before) {
            Some(e) => Some(e),
            None => first_flaw(b, before + a.len()),
        },
    decreases a.len(),
{
    if a.len() == 0 {
        assert(a + b =~= b);
    } else {
        lemma_first_flaw_concat(a.skip(1), b, before + 1);
        assert((a + b).skip(1) =~= a.skip(1) + b);
    }
}

proof fn lemma_list_nodes_concat(a: Seq<ComponentView>, b: Seq<ComponentView>, depth: nat)
    ensures
        list_nodes(a + b, depth) == list_nodes(a, depth) + list_nodes(b, depth),
    decreases b.len(),
{
    if b.len() == 0 {
        assert(a + b =~= a);
        assert(list_nodes(a, depth) + list_nodes(b, depth) =~= list_nodes(a, depth));
    } else {
        lemma_list_nodes_concat(a, b.drop_last(), depth);
        assert((a + b).drop_last() =~= a + b.drop_last());
        assert((a + b).last() == b.last());
        assert(list_nodes(a + b, depth) =~= list_nodes(a, depth) + list_nodes(b, depth));
    }
}

impl Page {
    /// Checks the page.
    pub fn validate(&self) -> (out: Result<(), ContentError>)
        ensures
            match out {
                Ok(_) => page_flaw(self@) is None,
                Err(e) => page_flaw(self@) matches Some(f) && e@ == ContentErrorView::Validation(f),
            },
    {
        proof {
            lemma_list_view(self.components@);
        }
        if self.metadata.schema != PAGE_SCHEMA {
            return Err(
                ContentError::Validation(
                    "unsupported schema ".to_owned().concat(
                        decimal(self.metadata.schema as u64).as_str(),
                    ),
                ),
            );
        }
        if self.metadata.title.as_str().is_empty() || utf8_len(self.metadata.title.as_str())
            > MAX_TITLE {
            return Err(ContentError::Validation("bad title length".to_owned()));
        }
        if self.components.len() == 0 {
            return Err(ContentError::Validation("page has no components".to_owned()));
        }
        if self.components.len() > MAX_COMPONENTS {
            return Err(ContentError::Validation("too many components".to_owned()));
        }
        match Self::validate_list(&self.components, 0, 0) {
            Ok(_) => Ok(()),
            Err(e) => Err(e),
        }
    }

    /// Checks components that stand side by side, where `count` nodes stand
    /// before them; gives the number of nodes then.
    fn validate_list(items: &Vec<Component>, depth: usize, count: usize) -> (out: Result<
        usize,
        ContentError,
    >)
        ensures
            match out {
                Ok(n) => {
                    &&& first_flaw(list_nodes(list_view(items@), depth as nat), count as nat)
                        is None
                    &&& n == count + list_nodes(list_view(items@), depth as nat).len()
                },
                Err(e) => first_flaw(list_nodes(list_view(items@), depth as nat), count as nat)
                    matches Some(f) && e@ == ContentErrorView::Validation(f),
            },
        decreases items, 1nat,
    {
        let ghost all = list_view(items@);
        proof {
            lemma_list_view(items@);
            assert(all.take(0) =~= Seq::empty());
        }
        let mut n: usize = count;
        let mut i: usize = 0;
        while i < items.len()
            invariant
                i <= items.len(),
                all == list_view(items@),
                all.len() == items@.len(),
                forall|j: int| 0 <= j < items@.len() ==> #[trigger] all[j] == component_view(items@[j]),
                first_flaw(list_nodes(all.take(i as int), depth as nat), count as nat) is None,
                n == count + list_nodes(all.take(i as int), depth as nat).len(),
            decreases items.len() - i,
        {
            proof {
                let done = list_nodes(all.take(i as int), depth as nat);
                let here = nodes_of(all[i as int], depth as nat);
                assert(all.take(i + 1).drop_last() =~= all.take(i as int));
                lemma_first_flaw_concat(done, here, count as nat);
                let rest = all.skip(i + 1);
                assert(all =~= all.take(i + 1) + rest);
                lemma_list_nodes_concat(all.take(i + 1), rest, depth as nat);
                lemma_first_flaw_concat(
                    list_nodes(all.take(i + 1), depth as nat),
                    list_nodes(rest, depth as nat),
                    count as nat,
                );
            }
            match Self::validate_component(&items[i], depth, n) {
                Ok(m) => {
                    n = m;
                },
                Err(e) => return Err(e),
            }
            i = i + 1;
        }
        assert(all.take(i as int) =~= all);
        Ok(n)
    }

    /// Checks a component and all that it holds, where `count` nodes stand
    /// before it; gives the number of nodes then.
    fn validate_component(c: &Component, depth: usize, count: usize) -> (out: Result<
        usize,
        ContentError,
    >)
        ensures
            match out {
                Ok(n) => {
                    &&& first_flaw(nodes_of(c@, depth as nat), count as nat) is None
                    &&& n == count + nodes_of(c@, depth as nat).len()
                },
                Err(e) => first_flaw(nodes_of(c@, depth as nat), count as nat) matches Some(f)
                    && e@ == ContentErrorView::Validation(f),
            },
        decreases c, 0nat,
    {
        let ghost nodes = nodes_of(c@, depth as nat);
        proof {
            if let ComponentView::Collection { items } = c@ {
                lemma_first_flaw_concat(
                    seq![(c@, depth as nat)],
                    list_nodes(items, (depth + 1) as nat),
                    count as nat,
                );
            }
            reveal_with_fuel(first_flaw, 2);
            assert(seq![(c@, depth as nat)].skip(1) =~= Seq::empty());
            assert(nodes[0] == (c@, depth as nat));
        }
        if count >= MAX_COMPONENTS {
            return Err(ContentError::Validation("too many components".to_owned()));
        }
        if depth > MAX_DEPTH {
            return Err(ContentError::Validation("component tree too deep".to_owned()));
        }
        match c {
            Component::Text { text } => {
                if utf8_len(text.as_str()) > MAX_TEXT_BYTES {
                    return Err(ContentError::Validation("text too large".to_owned()));
                }
            },
            Component::Heading { level, text } => {
                if utf8_len(text.as_str()) > MAX_TEXT_BYTES {
                    return Err(ContentError::Validation("text too large".to_owned()));
                }
                if *level < 1 || *level > 6 {
                    return Err(ContentError::Validation("bad heading level".to_owned()));
                }
            },
            Component::Image { content_id, .. } => {
                if !is_content_id(content_id.as_str()) {
                    return Err(
                        ContentError::Validation(
                            "bad content id ".to_owned().concat(content_id.as_str()),
                        ),
                    );
                }
            },
            Component::Link { label, .. } => {
                if label.as_str().is_empty() || utf8_len(label.as_str()) > MAX_LABEL {
                    return Err(ContentError::Validation("bad link label".to_owned()));
                }
            },
            Component::Collection { items } => {
                return Self::validate_list(items, depth + 1, count + 1);
            },
            Component::App { app_id, .. } => {
                if app_id.as_str().is_empty() || utf8_len(app_id.as_str()) > MAX_APP_ID {
                    return Err(ContentError::Validation("bad app id".to_owned()));
                }
            },
        }
        Ok(count + 1)
    }
}

/// A copy of properties.
fn copy_props(p: &Props) -> (out: Props)
    ensures
        props_view(out) == props_view(*p),
{
    match p {
        Props::Null => Props::Null,
        Props::Json(s) => Props::Json(s.clone()),
    }
}

/// A copy of a link target.
pub fn copy_target(t: &LinkTarget) -> (out: LinkTarget)
    ensures
        out@ == t@,
{
    match t {
        LinkTarget::Page { site, path } => LinkTarget::Page {
            site: site.clone(),
            path: path.clone(),
        },
        LinkTarget::External { hint } => LinkTarget::External { hint: hint.clone() },
        LinkTarget::Action { action_id } => LinkTarget::Action { action_id: action_id.clone() },
    }
}

/// A copy of a component and all that it holds.
fn copy_component(c: &Component) -> (out: Component)
    ensures
        out@ == c@,
    decreases c, 0nat,
{
    match c {
        Component::Text { text } => Component::Text { text: text.clone() },
        Component::Heading { level, text } => Component::Heading {
            level: *level,
            text: text.clone(),
        },
        Component::Image { content_id, alt } => Component::Image {
            content_id: content_id.clone(),
            alt: alt.clone(),
        },
        Component::Link { label, target } => Component::Link {
            label: label.clone(),
            target: copy_target(target),
        },
        Component::Collection { items } => Component::Collection { items: copy_list(items) },
        Component::App { app_id, props } => Component::App {
            app_id: app_id.clone(),
            props: copy_props(props),
        },
    }
}

/// A copy of components that stand side by side.
fn copy_list(items: &Vec<Component>) -> (out: Vec<Component>)
    ensures
        list_view(out@) == list_view(items@),
    decreases items, 1nat,
{
    let mut out: Vec<Component> = Vec::new();
    let mut i: usize = 0;
    while i < items.len()
        invariant
            i <= items@.len(),
            list_view(out@) == list_view(items@.take(i as int)),
        decreases items@.len() - i,
    {
        let c = copy_component(&items[i]);
        proof {
            assert(items@.take(i + 1).drop_last() =~= items@.take(i as int));
            assert(out@.push(c).drop_last() =~= out@);
        }
        out.push(c);
        i = i + 1;
    }
    assert(items@.take(i as int) =~= items@);
    out
}

impl Clone for Component {
    fn clone(&self) -> (out: Self)
        ensures
            out@ == self@,
    {
        copy_component(self)
    }
}

/// An outbound edge of a resource: a labelled link target.
#[derive(Debug, Clone, PartialEq, Eq)]
pub struct Reference {
    pub label: String,
    pub target: LinkTarget,
}

/// The mathematical value of a [`Reference`].
pub struct ReferenceView {
    pub label: Seq<char>,
    pub target: TargetView,
}

impl View for Reference {
    type V = ReferenceView;

    open spec fn view(&self) -> ReferenceView {
        ReferenceView { label: self.label@, target: self.target@ }
    }
}

/// The values of references.
pub open spec fn references_view(s: Seq<Reference>) -> Seq<ReferenceView> {
    Seq::new(s.len(), |i: int| s[i]@)
}

/// The links among nodes, in their order.
pub open spec fn edges(nodes: Seq<(ComponentView, nat)>) -> Seq<ReferenceView>
    decreases nodes.len(),
{
    if nodes.len() == 0 {
        Seq::empty()
    } else {
        match nodes.last().0 {
            ComponentView::Link { label, target } => edges(nodes.drop_last()).push(
                ReferenceView { label, target },
            ),
            _ => edges(nodes.drop_last()),
        }
    }
}

/// The outbound edges of a page, in document order.
pub open spec fn page_references(p: PageView) -> Seq<ReferenceView> {
    edges(list_nodes(p.components, 0))
}

proof fn lemma_edges_concat(a: Seq<(ComponentView, nat)>, b: Seq<(ComponentView, nat)>)
    ensures
        edges(a + b) == edges(a) + edges(b),
    decreases b.len(),
{
    if b.len() == 0 {
        assert(a + b =~= a);
        assert(edges(a) + edges(b) =~= edges(a));
    } else {
        lemma_edges_concat(a, b.drop_last());
        assert((a + b).drop_last() =~= a + b.drop_last());
        assert(edges(a + b) =~= edges(a) + edges(b));
    }
}

/// Appends the links of components that stand side by side.
fn collect_list(items: &Vec<Component>, Ghost(depth): Ghost<nat>, out: &mut Vec<Reference>)
    ensures
        references_view(final(out)@) == references_view(old(out)@) + edges(
            list_nodes(list_view(items@), depth),
        ),
    decreases items, 1nat,
{
    let ghost all = list_view(items@);
    proof {
        lemma_list_view(items@);
        assert(all.take(0) =~= Seq::empty());
        assert(references_view(out@) + Seq::<ReferenceView>::empty() =~= references_view(out@));
    }
    let mut i: usize = 0;
    while i < items.len()
        invariant
            i <= items@.len(),
            all == list_view(items@),
            all.len() == items@.len(),
            forall|j: int| 0 <= j < items@.len() ==> #[trigger] all[j] == component_view(items@[j]),
            references_view(out@) == references_view(old(out)@) + edges(
                list_nodes(all.take(i as int), depth),
            ),
        decreases items@.len() - i,
    {
        proof {
            let done = list_nodes(all.take(i as int), depth);
            let here = nodes_of(all[i as int], depth);
            assert(all.take(i + 1).drop_last() =~= all.take(i as int));
            lemma_edges_concat(done, here);
            assert(references_view(old(out)@) + (edges(done) + edges(here)) =~= references_view(
                old(out)@,
            ) + edges(done) + edges(here));
        }
        collect_component(&items[i], Ghost(depth), out);
        i = i + 1;
    }
    assert(all.take(i as int) =~= all);
}

/// Appends the links of a component and of all that it holds.
fn collect_component(c: &Component, Ghost(depth): Ghost<nat>, out: &mut Vec<Reference>)
    ensures
        references_view(final(out)@) == references_view(old(out)@) + edges(nodes_of(c@, depth)),
    decreases c, 0nat,
{
    proof {
        reveal_with_fuel(edges, 2);
        assert(seq![(c@, depth)].drop_last() =~= Seq::empty());
        if let ComponentView::Collection { items } = c@ {
            lemma_edges_concat(seq![(c@, depth)], list_nodes(items, depth + 1));
            assert(edges(seq![(c@, depth)]) + edges(list_nodes(items, depth + 1)) =~= edges(
                list_nodes(items, depth + 1),
            ));
        }
    }
    match c {
        Component::Link { label, target } => {
            out.push(Reference { label: label.clone(), target: copy_target(target) });
        },
        Component::Collection { items } => {
            collect_list(items, Ghost((depth + 1) as nat), out);
        },
        _ => {},
    }
    assert(references_view(out@) =~= references_view(old(out)@) + edges(nodes_of(c@, depth)));
}

/// The outbound edges of a page, in document order.
pub fn references_of(page: &Page) -> (out: Vec<Reference>)
    ensures
        references_view(out@) == page_references(page@),
{
    let mut out: Vec<Reference> = Vec::new();
    collect_list(&page.components, Ghost(0), &mut out);
    assert(references_view(out@) =~= page_references(page@));
    out
}

/// Whether two link targets are the same.
fn same_target(a: &LinkTarget, b: &LinkTarget) -> (same: bool)
    ensures
        same == (a@ == b@),
{
    match (a, b) {
        (LinkTarget::Page { site: s, path: p }, LinkTarget::Page { site: t, path: q }) => *s == *t
            && *p == *q,
        (LinkTarget::External { hint: h }, LinkTarget::External { hint: k }) => *h == *k,
        (LinkTarget::Action { action_id: x }, LinkTarget::Action { action_id: y }) => *x == *y,
        _ => false,
    }
}

/// Whether two lists of references are the same.
fn same_references(a: &Vec<Reference>, b: &Vec<Reference>) -> (same: bool)
    ensures
        same == (references_view(a@) == references_view(b@)),
{
    if a.len() != b.len() {
        assert(references_view(a@).len() != references_view(b@).len());
        return false;
    }
    let mut i: usize = 0;
    while i < a.len()
        invariant
            i <= a@.len() == b@.len(),
            forall|j: int| 0 <= j < i ==> #[trigger] a@[j]@ == b@[j]@,
        decreases a@.len() - i,
    {
        if a[i].label != b[i].label || !same_target(&a[i].target, &b[i].target) {
            assert(references_view(a@)[i as int] != references_view(b@)[i as int]);
            return false;
        }
        i = i + 1;
    }
    assert(references_view(a@) =~= references_view(b@));
    true
}

/// A reference with the content id of its target; only a known page has one.
#[derive(Debug, Clone, PartialEq, Eq)]
pub struct ResolvedReference {
    pub label: String,
    pub target: LinkTarget,
    pub content_id: Option<String>,
}

/// The text of an optional string.
pub open spec fn opt_text(s: Option<String>) -> Option<Seq<char>> {
    match s {
        Some(t) => Some(t@),
        None => None,
    }
}

/// A copy of an optional string.
pub fn copy_opt(s: &Option<String>) -> (out: Option<String>)
    ensures
        opt_text(out) == opt_text(*s),
{
    match s {
        Some(t) => Some(t.clone()),
        None => None,
    }
}

/// Maps site and path to a content id and resolves the edges of resources.
#[derive(Debug, Clone)]
pub struct ReferenceResolver {
    targets: PairMap<String>,
}

impl View for ReferenceResolver {
    type V = Map<(Seq<char>, Seq<char>), String>;

    /// The content ids by site and path.
    closed spec fn view(&self) -> Map<(Seq<char>, Seq<char>), String> {
        self.targets@
    }
}

/// The content id of a target.
pub open spec fn resolved_id(
    known: Map<(Seq<char>, Seq<char>), String>,
    target: TargetView,
) -> Option<Seq<char>> {
    match target {
        TargetView::Page { site, path } => if known.dom().contains((site, path)) {
            Some(known[(site, path)]@)
        } else {
            None
        },
        _ => None,
    }
}

impl Default for ReferenceResolver {
    fn default() -> (r: Self)
        ensures
            r@ == Map::<(Seq<char>, Seq<char>), String>::empty(),
    {
        ReferenceResolver { targets: PairMap::new() }
    }
}

impl ReferenceResolver {
    /// A resolver that knows nothing.
    pub fn new() -> (r: Self)
        ensures
            r@ == Map::<(Seq<char>, Seq<char>), String>::empty(),
    {
        ReferenceResolver { targets: PairMap::new() }
    }

    /// Sets the content id of a page.
    pub fn insert(&mut self, site: String, path: String, content_id: String)
        ensures
            final(self)@ == old(self)@.insert((site@, path@), content_id),
    {
        self.targets.insert(site, path, content_id);
    }

    /// The reference with the content id of its target.
    pub fn resolve(&self, reference: &Reference) -> (out: ResolvedReference)
        ensures
            out.label@ == reference.label@,
            out.target@ == reference.target@,
            opt_text(out.content_id) == resolved_id(self@, reference.target@),
    {
        let content_id = match &reference.target {
            LinkTarget::Page { site, path } => match self.targets.get(
                site.as_str(),
                path.as_str(),
            ) {
                Some(id) => Some(id.clone()),
                None => None,
            },
            _ => None,
        };
        ResolvedReference {
            label: reference.label.clone(),
            target: copy_target(&reference.target),
            content_id,
        }
    }

    /// The references of a resource, each with the content id of its target.
    pub fn resolve_resource(&self, resource: &Resource) -> (out: Vec<ResolvedReference>)
        ensures
            out@.len() == resource.references@.len(),
            forall|i: int|
                0 <= i < out@.len() ==> {
                    &&& (#[trigger] out@[i]).label@ == resource.references@[i].label@
                    &&& out@[i].target@ == resource.references@[i].target@
                    &&& opt_text(out@[i].content_id) == resolved_id(
                        self@,
                        resource.references@[i].target@,
                    )
                },
    {
        let mut out: Vec<ResolvedReference> = Vec::new();
        let mut i: usize = 0;
        while i < resource.references.len()
            invariant
                i <= resource.references@.len(),
                out@.len() == i,
                forall|j: int|
                    0 <= j < i ==> {
                        &&& (#[trigger] out@[j]).label@ == resource.references@[j].label@
                        &&& out@[j].target@ == resource.references@[j].target@
                        &&& opt_text(out@[j].content_id) == resolved_id(
                            self@,
                            resource.references@[j].target@,
                        )
                    },
            decreases resource.references@.len() - i,
        {
            out.push(self.resolve(&resource.references[i]));
            i = i + 1;
        }
        out
    }
}

/// The served, addressed unit of content: a page with its identity, lineage
/// and references. The id is over the bare page, never the envelope.
#[derive(Debug, Clone, PartialEq, Eq)]
pub struct Resource {
    pub id: String,
    pub content: Page,
    /// Content id of the previous revision.
    pub previous: Option<String>,
    /// Outbound edges, as derived from the page.
    pub references: Vec<Reference>,
}

/// The mathematical value of a [`Resource`].
pub struct ResourceView {
    pub id: Seq<char>,
    pub content: PageView,
    pub previous: Option<Seq<char>>,
    pub references: Seq<ReferenceView>,
}

impl View for Resource {
    type V = ResourceView;

    open spec fn view(&self) -> ResourceView {
        ResourceView {
            id: self.id@,
            content: self.content@,
            previous: opt_text(self.previous),
            references: references_view(self.references@),
        }
    }
}

/// The resource around a page with the given canonical bytes.
pub open spec fn wrapped(p: PageView, canonical: Seq<u8>) -> ResourceView {
    ResourceView {
        id: content_id(canonical),
        content: p,
        previous: None,
        references: page_references(p),
    }
}

/// The first thing that is wrong with a resource whose page has the given
/// canonical bytes.
pub open spec fn resource_flaw(r: ResourceView, canonical: Seq<u8>) -> Option<Seq<char>> {
    if page_flaw(r.content) is Some {
        page_flaw(r.content)
    } else if !valid_content_id(r.id) {
        Some("bad resource id"@)
    } else if r.id != content_id(canonical) {
        Some("resource id does not match content hash"@)
    } else if r.previous is Some && !valid_content_id(r.previous->0) {
        Some("bad previous content id"@)
    } else if r.references != page_references(r.content) {
        Some("references do not match content"@)
    } else {
        None
    }
}

/// What an envelope says, or why it is refused: id and references are
/// checked against the page with the given canonical bytes.
pub open spec fn opened_envelope(
    id: Seq<char>,
    p: PageView,
    canonical: Seq<u8>,
    previous: Option<Seq<char>>,
    references: Option<Seq<ReferenceView>>,
) -> Result<ResourceView, Seq<char>> {
    if !valid_content_id(id) {
        Err("resource id is not a content id"@)
    } else if content_id(canonical) != id {
        Err("resource id does not match content hash"@)
    } else if references is Some && references->0 != page_references(p) {
        Err("references do not match content"@)
    } else {
        Ok(ResourceView { id, content: p, previous, references: page_references(p) })
    }
}

/// The values of an optional list of references.
pub open spec fn opt_references(r: Option<Vec<Reference>>) -> Option<Seq<ReferenceView>> {
    match r {
        Some(v) => Some(references_view(v@)),
        None => None,
    }
}

impl Resource {
    /// The resource around a page with the given canonical bytes.
    pub fn from_page(page: Page, canonical: &[u8]) -> (out: Resource)
        ensures
            out@ == wrapped(page@, canonical@),
    {
        let references = references_of(&page);
        Resource { id: content_id_of(canonical), content: page, previous: None, references }
    }

    /// The resource that an envelope holds.
    pub fn from_envelope(
        id: String,
        content: Page,
        canonical: &[u8],
        previous: Option<String>,
        references: Option<Vec<Reference>>,
    ) -> (out: Result<Resource, String>)
        ensures
            match out {
                Ok(r) => opened_envelope(
                    id@,
                    content@,
                    canonical@,
                    opt_text(previous),
                    opt_references(references),
                ) == Ok::<ResourceView, Seq<char>>(r@),
                Err(e) => opened_envelope(
                    id@,
                    content@,
                    canonical@,
                    opt_text(previous),
                    opt_references(references),
                ) == Err::<ResourceView, Seq<char>>(e@),
            },
    {
        let derived = references_of(&content);
        if !is_content_id(id.as_str()) {
            return Err("resource id is not a content id".to_owned());
        }
        if content_id_of(canonical) != id {
            return Err("resource id does not match content hash".to_owned());
        }
        if let Some(stored) = &references {
            if !same_references(stored, &derived) {
                return Err("references do not match content".to_owned());
            }
        }
        Ok(Resource { id, content, previous, references: derived })
    }

    /// Checks the resource, whose page has the given canonical bytes.
    pub fn validate(&self, canonical: &[u8]) -> (out: Result<(), ContentError>)
        ensures
            match out {
                Ok(_) => resource_flaw(self@, canonical@) is None,
                Err(e) => resource_flaw(self@, canonical@) matches Some(f) && e@
                    == ContentErrorView::Validation(f),
            },
    {
        match self.content.validate() {
            Ok(_) => {},
            Err(e) => return Err(e),
        }
        if !is_content_id(self.id.as_str()) {
            return Err(ContentError::Validation("bad resource id".to_owned()));
        }
        if self.id != content_id_of(canonical) {
            return Err(
                ContentError::Validation("resource id does not match content hash".to_owned()),
            );
        }
        if let Some(prev) = &self.previous {
            if !is_content_id(prev.as_str()) {
                return Err(ContentError::Validation("bad previous content id".to_owned()));
            }
        }
        if !same_references(&self.references, &references_of(&self.content)) {
            return Err(ContentError::Validation("references do not match content".to_owned()));
        }
        Ok(())
    }

    /// What becomes of received bytes: they are bounded, have to be readable
    /// (`parsed` is what the reader made of them, with the canonical bytes of
    /// the page), and the resource has to be valid.
    pub fn from_json(bytes: &[u8], parsed: Result<(Resource, Vec<u8>), String>) -> (out: Result<
        Resource,
        ContentError,
    >)
        ensures
            match out {
                Ok(r) => bytes@.len() <= MAX_PAGE_BYTES && (parsed matches Ok(p) && r == p.0
                    && resource_flaw(p.0@, p.1@) is None),
                Err(e) => if bytes@.len() > MAX_PAGE_BYTES {
                    e@ == ContentErrorView::Validation("resource too large"@)
                } else {
                    match parsed {
                        Ok(p) => resource_flaw(p.0@, p.1@) matches Some(f) && e@
                            == ContentErrorView::Validation(f),
                        Err(t) => e@ == ContentErrorView::Validation(t@),
                    }
                },
            },
    {
        if bytes.len() > MAX_PAGE_BYTES {
            return Err(ContentError::Validation("resource too large".to_owned()));
        }
        match parsed {
            Ok(p) => match p.0.validate(p.1.as_slice()) {
                Ok(_) => Ok(p.0),
                Err(e) => Err(e),
            },
            Err(t) => Err(ContentError::Validation(t)),
        }
    }
}

/// Most bytes of a page or a resource.
pub fn max_page_bytes() -> (n: usize)
    ensures
        n == MAX_PAGE_BYTES,
{
    MAX_PAGE_BYTES
}

/// Why received bytes are no page: they are bounded, have to be readable
/// (`parsed` is what the reader made of them), and the page has to be valid.
pub open spec fn form_fault(bytes: Seq<u8>, parsed: Result<Page, String>) -> Option<
    ContentErrorView,
> {
    if bytes.len() > MAX_PAGE_BYTES {
        Some(ContentErrorView::Validation("page too large"@))
    } else {
        match parsed {
            Err(t) => Some(ContentErrorView::Validation(t@)),
            Ok(p) => match page_flaw(p@) {
                Some(f) => Some(ContentErrorView::Validation(f)),
                None => None,
            },
        }
    }
}

impl Page {
    /// Checks received bytes with what the reader made of them.
    pub fn check_form(bytes: &[u8], parsed: &Result<Page, String>) -> (out: Result<
        (),
        ContentError,
    >)
        ensures
            match out {
                Ok(_) => form_fault(bytes@, *parsed) is None,
                Err(e) => form_fault(bytes@, *parsed) == Some(e@),
            },
    {
        if bytes.len() > MAX_PAGE_BYTES {
            return Err(ContentError::Validation("page too large".to_owned()));
        }
        match parsed {
            Ok(page) => page.validate(),
            Err(t) => Err(ContentError::Validation(t.clone())),
        }
    }

    /// What becomes of received bytes, with what the reader made of them.
    pub fn from_json(bytes: &[u8], parsed: Result<Page, String>) -> (out: Result<
        Page,
        ContentError,
    >)
        ensures
            match out {
                Ok(p) => form_fault(bytes@, parsed) is None && parsed == Ok::<Page, String>(p),
                Err(e) => form_fault(bytes@, parsed) == Some(e@),
            },
    {
        match Self::check_form(bytes, &parsed) {
            Err(e) => Err(e),
            Ok(_) => match parsed {
                Ok(page) => Ok(page),
                Err(t) => Err(ContentError::Validation(t)),
            },
        }
    }
}

/// What a [`ContentError`] says to a reader.
pub open spec fn error_text(e: ContentErrorView) -> Seq<char> {
    match e {
        ContentErrorView::Validation(s) => "validation: "@ + s,
        ContentErrorView::Serialization(s) => "serialization: "@ + s,
    }
}

impl ContentError {
    /// What the error says to a reader.
    pub fn to_string(&self) -> (out: String)
        ensures
            out@ == error_text(self@),
    {
        match self {
            ContentError::Validation(s) => "validation: ".to_owned().concat(s.as_str()),
            ContentError::Serialization(s) => "serialization: ".to_owned().concat(s.as_str()),
        }
    }
}

proof fn lemma_no_flaw(nodes: Seq<(ComponentView, nat)>, before: nat)
    ensures
        first_flaw(nodes, before) is None <==> forall|i: int|
            0 <= i < nodes.len() ==> flaw_at(#[trigger] nodes[i], before + i as nat) is None,
    decreases nodes.len(),
{
    if nodes.len() > 0 {
        lemma_no_flaw(nodes.skip(1), before + 1);
        let rest = nodes.skip(1);
        if first_flaw(nodes, before) is None {
            assert forall|i: int| 0 <= i < nodes.len() implies flaw_at(
                #[trigger] nodes[i],
                before + i as nat,
            ) is None by {
                if i > 0 {
                    assert(rest[i - 1] == nodes[i]);
                    assert(before + 1 + (i - 1) as nat == before + i as nat);
                }
            }
        }
        if forall|i: int|
            0 <= i < nodes.len() ==> flaw_at(#[trigger] nodes[i], before + i as nat) is None {
            assert(flaw_at(nodes[0], before + 0int as nat) is None);
            assert forall|i: int| 0 <= i < rest.len() implies flaw_at(
                #[trigger] rest[i],
                before + 1 + i as nat,
            ) is None by {
                assert(rest[i] == nodes[i + 1]);
                assert(before + 1 + i as nat == before + (i + 1) as nat);
            }
        }
    }
}

/// A page is valid exactly when its schema and title are right, it has at
/// least one component, at most [`MAX_COMPONENTS`] counting nested ones, none
/// deeper than [`MAX_DEPTH`], and none flawed in itself.
pub proof fn law_page_validity(p: PageView)
    ensures
        page_flaw(p) is None <==> {
            let nodes = list_nodes(p.components, 0);
            &&& p.schema == PAGE_SCHEMA
            &&& p.title.len() > 0 && byte_len(p.title) <= MAX_TITLE
            &&& p.components.len() > 0
            &&& nodes.len() <= MAX_COMPONENTS
            &&& forall|i: int|
                0 <= i < nodes.len() ==> (#[trigger] nodes[i]).1 <= MAX_DEPTH && own_flaw(
                    nodes[i].0,
                ) is None
        },
{
    let nodes = list_nodes(p.components, 0);
    lemma_no_flaw(nodes, 0);
    lemma_nodes_len(p.components, 0);
    if page_flaw(p) is None {
        if nodes.len() > MAX_COMPONENTS {
            let k = MAX_COMPONENTS as int;
            assert(flaw_at(nodes[k], 0 + k as nat) is None);
        }
        assert forall|i: int| 0 <= i < nodes.len() implies (#[trigger] nodes[i]).1 <= MAX_DEPTH
            && own_flaw(nodes[i].0) is None by {
            assert(flaw_at(nodes[i], 0 + i as nat) is None);
        }
    }
}

proof fn lemma_nodes_len(items: Seq<ComponentView>, depth: nat)
    ensures
        list_nodes(items, depth).len() >= items.len(),
    decreases items.len(),
{
    if items.len() > 0 {
        lemma_nodes_len(items.drop_last(), depth);
        assert(nodes_of(items.last(), depth)[0] == (items.last(), depth));
    }
}

/// A page within bounds, once wrapped, is a valid resource, and its id is
/// that of the bare page whatever lineage it is given.
pub proof fn law_wrapped_page_is_valid(
    p: PageView,
    canonical: Seq<u8>,
    previous: Option<Seq<char>>,
)
    requires
        page_flaw(p) is None,
        previous is Some ==> valid_content_id(previous->0),
    ensures
        resource_flaw(wrapped(p, canonical), canonical) is None,
        resource_flaw(ResourceView { previous, ..wrapped(p, canonical) }, canonical) is None,
        opened_envelope(
            wrapped(p, canonical).id,
            p,
            canonical,
            previous,
            Some(wrapped(p, canonical).references),
        ) == Ok::<ResourceView, Seq<char>>(
            ResourceView { previous, ..wrapped(p, canonical) },
        ),
{
    crate::digest::law_content_id_is_valid(canonical);
}

/// The components of a page in document order: each with its depth, behind
/// those that stand before it, and what a collection holds right behind the
/// collection, one deeper.
pub proof fn law_nodes_are_in_document_order(
    before: Seq<ComponentView>,
    c: ComponentView,
    after: Seq<ComponentView>,
    depth: nat,
)
    ensures
        list_nodes(before + seq![c] + after, depth) == list_nodes(before, depth) + seq![(c, depth)]
            + (match c {
            ComponentView::Collection { items } => list_nodes(items, depth + 1),
            _ => Seq::<(ComponentView, nat)>::empty(),
        }) + list_nodes(after, depth),
        list_nodes(Seq::empty(), depth) == Seq::<(ComponentView, nat)>::empty(),
{
    lemma_list_nodes_concat(before + seq![c], after, depth);
    lemma_list_nodes_concat(before, seq![c], depth);
    reveal_with_fuel(list_nodes, 2);
    assert(seq![c].drop_last() =~= Seq::empty());
    let inner = match c {
        ComponentView::Collection { items } => list_nodes(items, depth + 1),
        _ => Seq::<(ComponentView, nat)>::empty(),
    };
    assert(list_nodes(seq![c], depth) =~= seq![(c, depth)] + inner);
    assert(list_nodes(before + seq![c] + after, depth) =~= list_nodes(before, depth) + seq![
        (c, depth),
    ] + inner + list_nodes(after, depth));
}

/// The references of a page are its links, all of them and nothing else, in
/// document order, at any depth.
pub proof fn law_references_are_the_links(
    before: Seq<(ComponentView, nat)>,
    c: ComponentView,
    depth: nat,
    after: Seq<(ComponentView, nat)>,
    p: PageView,
)
    ensures
        edges(before + seq![(c, depth)] + after) == edges(before) + (match c {
            ComponentView::Link { label, target } => seq![ReferenceView { label, target }],
            _ => Seq::<ReferenceView>::empty(),
        }) + edges(after),
        edges(Seq::empty()) == Seq::<ReferenceView>::empty(),
        page_references(p) == edges(list_nodes(p.components, 0)),
{
    let one = seq![(c, depth)];
    lemma_edges_concat(before + one, after);
    lemma_edges_concat(before, one);
    reveal_with_fuel(edges, 2);
    assert(one.drop_last() =~= Seq::empty());
    assert(edges(one) =~= match c {
        ComponentView::Link { label, target } => seq![ReferenceView { label, target }],
        _ => Seq::<ReferenceView>::empty(),
    });
}

/// When a component is valid by itself.
pub proof fn law_component_validity(c: ComponentView)
    ensures
        own_flaw(c) is None <==> match c {
            ComponentView::Text { text } => byte_len(text) <= 262144,
            ComponentView::Heading { level, text } => byte_len(text) <= 262144 && 1 <= level <= 6,
            ComponentView::Image { content_id, .. } => valid_content_id(content_id),
            ComponentView::Link { label, .. } => label.len() > 0 && byte_len(label) <= 1024,
            ComponentView::Collection { .. } => true,
            ComponentView::App { app_id, .. } => app_id.len() > 0 && byte_len(app_id) <= 128,
        },
{
}

/// A page is valid exactly where its schema is the first, its title has one to
/// 256 bytes, and it has components: at most 4096 with all that they hold,
/// none deeper than 32, and each valid by itself.
pub proof fn law_page_limits(p: PageView)
    ensures
        page_flaw(p) is None <==> {
            let nodes = list_nodes(p.components, 0);
            &&& p.schema == 1
            &&& p.title.len() > 0
            &&& byte_len(p.title) <= 256
            &&& p.components.len() > 0
            &&& nodes.len() <= 4096
            &&& forall|i: int|
                0 <= i < nodes.len() ==> (#[trigger] nodes[i]).1 <= 32 && own_flaw(nodes[i].0)
                    is None
        },
{
    law_page_validity(p);
}

/// The flaw that is told is that of the first flawed component in document
/// order.
pub proof fn law_the_first_flaw_is_told(
    good: Seq<(ComponentView, nat)>,
    bad: (ComponentView, nat),
    after: Seq<(ComponentView, nat)>,
)
    requires
        good.len() < 4096,
        forall|i: int|
            0 <= i < good.len() ==> (#[trigger] good[i]).1 <= 32 && own_flaw(good[i].0) is None,
        bad.1 > 32 || own_flaw(bad.0) is Some,
    ensures
        first_flaw(good + seq![bad] + after, 0) == if bad.1 > 32 {
            Some("component tree too deep"@)
        } else {
            own_flaw(bad.0)
        },
{
    lemma_good_prefix(good, seq![bad] + after, 0);
    assert(good + seq![bad] + after =~= good + (seq![bad] + after));
    assert((seq![bad] + after)[0] == bad);
}

proof fn lemma_good_prefix(
    good: Seq<(ComponentView, nat)>,
    rest: Seq<(ComponentView, nat)>,
    before: nat,
)
    requires
        before + good.len() <= 4096,
        forall|i: int|
            0 <= i < good.len() ==> (#[trigger] good[i]).1 <= 32 && own_flaw(good[i].0) is None,
    ensures
        first_flaw(good + rest, before) == first_flaw(rest, before + good.len()),
    decreases good.len(),
{
    if good.len() == 0 {
        assert(good + rest =~= rest);
    } else {
        let g = good.skip(1);
        assert forall|i: int| 0 <= i < g.len() implies (#[trigger] g[i]).1 <= 32 && own_flaw(
            g[i].0,
        ) is None by {
            assert(g[i] == good[i + 1]);
        }
        lemma_good_prefix(g, rest, before + 1);
        assert((good + rest).skip(1) =~= g + rest);
        assert((good + rest)[0] == good[0]);
    }
}

/// A resource is valid exactly where its page is, its id is that of the page's
/// canonical form, its previous id is one where there is one, and its
/// references are those of the page.
pub proof fn law_resource_validity(r: ResourceView, canonical: Seq<u8>)
    ensures
        resource_flaw(r, canonical) is None <==> {
            &&& page_flaw(r.content) is None
            &&& r.id == content_id(canonical)
            &&& r.previous matches Some(id) ==> valid_content_id(id)
            &&& r.references == page_references(r.content)
        },
        wrapped(r.content, canonical) == (ResourceView {
            id: content_id(canonical),
            content: r.content,
            previous: None,
            references: page_references(r.content),
        }),
{
    crate::digest::law_content_id_is_valid(canonical);
}

/// An envelope is opened exactly where its id is that of the page's canonical
/// form and the references that it lists, if it does, are those of the page;
/// nothing else of it is changed.
pub proof fn law_envelopes_match_their_content(
    id: Seq<char>,
    p: PageView,
    canonical: Seq<u8>,
    previous: Option<Seq<char>>,
    references: Option<Seq<ReferenceView>>,
)
    ensures
        opened_envelope(id, p, canonical, previous, references) is Ok <==> id == content_id(
            canonical,
        ) && (references matches Some(list) ==> list == page_references(p)),
        opened_envelope(id, p, canonical, previous, references) matches Ok(r) ==> r == (
        ResourceView { id, content: p, previous, references: page_references(p) }),
{
    crate::digest::law_content_id_is_valid(canonical);
}

/// Bytes are a page exactly where they are not too many, could be read, and
/// what was read is valid.
pub proof fn law_page_bytes(bytes: Seq<u8>, parsed: Result<Page, String>)
    ensures
        form_fault(bytes, parsed) is None <==> bytes.len() <= 1048576 && (parsed matches Ok(p)
            && page_flaw(p@) is None),
        bytes.len() <= 1048576 ==> (parsed matches Ok(p) ==> (page_flaw(p@) matches Some(f)
            ==> form_fault(bytes, parsed) == Some(ContentErrorView::Validation(f)))),
{
}

/// A reference to a page is resolved to the id that was put in for its site
/// and path, and to that one only; other references never are.
pub proof fn law_references_resolve_to_their_page(
    known: Map<(Seq<char>, Seq<char>), String>,
    site: Seq<char>,
    path: Seq<char>,
    hint: Seq<char>,
    id: String,
    other: (Seq<char>, Seq<char>),
)
    ensures
        resolved_id(known.insert((site, path), id), TargetView::Page { site, path }) == Some(id@),
        other != (site, path) ==> resolved_id(
            known.insert((site, path), id),
            TargetView::Page { site: other.0, path: other.1 },
        ) == resolved_id(known, TargetView::Page { site: other.0, path: other.1 }),
        !known.dom().contains((site, path)) ==> resolved_id(
            known,
            TargetView::Page { site, path },
        ) is None,
        resolved_id(known, TargetView::External { hint }) is None,
        resolved_id(known, TargetView::Action { action_id: hint }) is None,
{
}

/// The text of an error names its kind and ends with its detail.
pub proof fn law_error_texts(why: Seq<char>)
    ensures
        error_text(ContentErrorView::Validation(why)) == "validation: "@ + why,
        error_text(ContentErrorView::Serialization(why)) == "serialization: "@ + why,
{
}

/// What is told of a component that is not valid.
pub proof fn law_component_flaws(c: ComponentView)
    ensures
        own_flaw(c) matches Some(why) ==> why == match c {
            ComponentView::Text { .. } => "text too large"@,
            ComponentView::Heading { text, .. } => if byte_len(text) > 262144 {
                "text too large"@
            } else {
                "bad heading level"@
            },
            ComponentView::Image { content_id, .. } => "bad content id "@ + content_id,
            ComponentView::Link { .. } => "bad link label"@,
            ComponentView::Collection { .. } => Seq::empty(),
            ComponentView::App { .. } => "bad app id"@,
        },
        own_flaw(c) is Some ==> !(c is Collection),
{
}

/// What is told of a page that is not valid: its schema, its title, that it is
/// empty or too long, or the first flaw of its components.
pub proof fn law_page_flaws(p: PageView)
    ensures
        page_flaw(p) == if p.schema != 1 {
            Some("unsupported schema "@ + dec_chars(p.schema as nat))
        } else if p.title.len() == 0 || byte_len(p.title) > 256 {
            Some("bad title length"@)
        } else if p.components.len() == 0 {
            Some("page has no components"@)
        } else if p.components.len() > 4096 {
            Some("too many components"@)
        } else {
            first_flaw(list_nodes(p.components, 0), 0)
        },
{
}

/// A tree of too many components is told as such where the first of them are
/// valid.
pub proof fn law_too_many_components_are_told(
    good: Seq<(ComponentView, nat)>,
    after: Seq<(ComponentView, nat)>,
)
    requires
        good.len() == 4096,
        after.len() > 0,
        forall|i: int|
            0 <= i < good.len() ==> (#[trigger] good[i]).1 <= 32 && own_flaw(good[i].0) is None,
    ensures
        first_flaw(good + after, 0) == Some("too many components"@),
{
    lemma_good_nodes_first(good, after, 0);
}

/// Nodes without a flaw are passed over.
proof fn lemma_good_nodes_first(
    good: Seq<(ComponentView, nat)>,
    after: Seq<(ComponentView, nat)>,
    before: nat,
)
    requires
        before + good.len() <= 4096,
        forall|i: int|
            0 <= i < good.len() ==> (#[trigger] good[i]).1 <= 32 && own_flaw(good[i].0) is None,
    ensures
        first_flaw(good + after, before) == first_flaw(after, before + good.len()),
    decreases good.len(),
{
    if good.len() == 0 {
        assert(good + after =~= after);
    } else {
        let all = good + after;
        assert(all[0] == good[0]);
        assert(all.skip(1) =~= good.skip(1) + after);
        lemma_good_nodes_first(good.skip(1), after, before + 1);
    }
}

/// What is told of a resource or an envelope that does not match its content,
/// in the order of the tests.
pub proof fn law_resource_flaws(
    r: ResourceView,
    canonical: Seq<u8>,
    references: Option<Seq<ReferenceView>>,
)
    ensures
        page_flaw(r.content) is Some ==> resource_flaw(r, canonical) == page_flaw(r.content),
        page_flaw(r.content) is None ==> (resource_flaw(r, canonical) matches Some(why) ==> why
            == if !valid_content_id(r.id) {
            "bad resource id"@
        } else if r.id != content_id(canonical) {
            "resource id does not match content hash"@
        } else if (r.previous matches Some(id) && !valid_content_id(id)) {
            "bad previous content id"@
        } else {
            "references do not match content"@
        }),
        opened_envelope(r.id, r.content, canonical, r.previous, references) matches Err(why) ==> why
            == if !valid_content_id(r.id) {
            "resource id is not a content id"@
        } else if r.id != content_id(canonical) {
            "resource id does not match content hash"@
        } else {
            "references do not match content"@
        },
{
}

/// What is told of bytes that are no page: that they are too many, or what
/// reading them failed at.
pub proof fn law_unreadable_pages(bytes: Seq<u8>, page: Page, why: String)
    ensures
        bytes.len() > 1048576 ==> form_fault(bytes, Ok(page)) == Some(
            ContentErrorView::Validation("page too large"@),
        ) && form_fault(bytes, Err(why)) == form_fault(bytes, Ok(page)),
        bytes.len() <= 1048576 ==> form_fault(bytes, Err(why)) == Some(
            ContentErrorView::Validation(why@),
        ),
{
}

} // verus!
