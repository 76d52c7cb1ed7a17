//! The contents of a selection popup: its items and its settings.
use vstd::prelude::*;
use crate::app_event::AppEvent;
use crate::text::opt_view;

verus! {

/// The footer line of a popup.
#[derive(Debug, Clone, Copy, PartialEq, Eq)]
pub enum PopupHint {
    /// The usual key hints for moving, choosing and closing.
    Standard,
}

/// One row of a selection popup.
#[derive(Debug, PartialEq, Eq)]
pub struct SelectionItem {
    pub name: String,
    pub description: Option<String>,
    pub selected_description: Option<String>,
    pub is_current: bool,
    pub is_disabled: bool,
    pub disabled_reason: Option<String>,
    pub actions: Vec<AppEvent>,
    pub dismiss_on_select: bool,
    pub search_value: Option<String>,
}

/// A selection popup.
#[derive(Debug, PartialEq, Eq)]
pub struct SelectionViewParams {
    pub view_id: Option<String>,
    pub title: Option<String>,
    pub subtitle: Option<String>,
    pub footer_hint: Option<PopupHint>,
    pub items: Vec<SelectionItem>,
    pub is_searchable: bool,
    pub search_placeholder: Option<String>,
    pub initial_selected_idx: Option<usize>,
    pub on_cancel: Option<AppEvent>,
}

impl SelectionItem {
    /// An item named `name` with every other setting empty or off.
    pub fn named(name: String) -> (r: Self)
        ensures
            r.name == name,
            r.description is None,
            r.selected_description is None,
            !r.is_current,
            !r.is_disabled,
            r.disabled_reason is None,
            r.actions@.len() == 0,
            !r.dismiss_on_select,
            r.search_value is None,
    {
        SelectionItem {
            name,
            description: None,
            selected_description: None,
            is_current: false,
            is_disabled: false,
            disabled_reason: None,
            actions: Vec::new(),
            dismiss_on_select: false,
            search_value: None,
        }
    }
}


/// An item as its contents read.
pub struct SelectionItemView {
    pub name: Seq<char>,
    pub description: Option<Seq<char>>,
    pub selected_description: Option<Seq<char>>,
    pub is_current: bool,
    pub is_disabled: bool,
    pub disabled_reason: Option<Seq<char>>,
    pub actions: Seq<AppEvent>,
    pub dismiss_on_select: bool,
    pub search_value: Option<Seq<char>>,
}

impl View for SelectionItem {
    type V = SelectionItemView;

    open spec fn view(&self) -> SelectionItemView {
        SelectionItemView {
            name: self.name@,
            description: opt_view(self.description),
            selected_description: opt_view(self.selected_description),
            is_current: self.is_current,
            is_disabled: self.is_disabled,
            disabled_reason: opt_view(self.disabled_reason),
            actions: self.actions@,
            dismiss_on_select: self.dismiss_on_select,
            search_value: opt_view(self.search_value),
        }
    }
}

/// A popup as its contents read.
pub struct SelectionViewParamsView {
    pub view_id: Option<Seq<char>>,
    pub title: Option<Seq<char>>,
    pub subtitle: Option<Seq<char>>,
    pub footer_hint: Option<PopupHint>,
    pub items: Seq<SelectionItemView>,
    pub is_searchable: bool,
    pub search_placeholder: Option<Seq<char>>,
    pub initial_selected_idx: Option<usize>,
    pub on_cancel: Option<AppEvent>,
}

/// The contents of each item.
pub open spec fn item_views(items: Seq<SelectionItem>) -> Seq<SelectionItemView> {
    items.map_values(|i: SelectionItem| i@)
}

impl View for SelectionViewParams {
    type V = SelectionViewParamsView;

    open spec fn view(&self) -> SelectionViewParamsView {
        SelectionViewParamsView {
            view_id: opt_view(self.view_id),
            title: opt_view(self.title),
            subtitle: opt_view(self.subtitle),
            footer_hint: self.footer_hint,
            items: item_views(self.items@),
            is_searchable: self.is_searchable,
            search_placeholder: opt_view(self.search_placeholder),
            initial_selected_idx: self.initial_selected_idx,
            on_cancel: self.on_cancel,
        }
    }
}

/// Pushing an item pushes its contents.
pub proof fn lemma_item_views_push(v: Seq<SelectionItem>, x: SelectionItem)
    ensures
        item_views(v.push(x)) == item_views(v).push(x@),
{
    assert(item_views(v.push(x)) =~= item_views(v).push(x@));
}


/// A list holding the one event `e`.
pub fn single_action(e: AppEvent) -> (r: Vec<AppEvent>)
    ensures
        r@ == seq![e],
{
    let mut v: Vec<AppEvent> = Vec::new();
    v.push(e);
    v
}

} // verus!
