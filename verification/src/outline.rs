//! Tables of contents: nested lists built from a sequence of headings.
//!
//! The builder keeps a stack of the levels whose lists are open. A jump
//! over levels opens a single nested list.

use vstd::prelude::*;
use vstd::string::StringExecFns;

verus! {

/// One entry of a table of contents: a heading level and the markup shown
/// for the heading.
pub struct TocItem {
    pub level: usize,
    pub content: String,
}

pub struct TocItemView {
    pub level: nat,
    pub content: Seq<char>,
}

impl View for TocItem {
    type V = TocItemView;

    open spec fn view(&self) -> TocItemView {
        TocItemView { level: self.level as nat, content: self.content@ }
    }
}

pub open spec fn items_view(items: Seq<TocItem>) -> Seq<TocItemView> {
    items.map_values(|item: TocItem| item@)
}

/// The markup written so far and the levels of the lists still open,
/// innermost last.
pub struct TocState {
    pub out: Seq<char>,
    pub stack: Seq<nat>,
}

pub open spec fn open_item() -> Seq<char> {
    "<ul><li>"@
}

pub open spec fn next_item() -> Seq<char> {
    "</li><li>"@
}

pub open spec fn close_item() -> Seq<char> {
    "</li></ul>"@
}

pub open spec fn start_state() -> TocState {
    TocState { out: Seq::empty(), stack: Seq::empty() }
}

/// Closes the innermost list.
pub open spec fn close_one(state: TocState) -> TocState {
    TocState { out: state.out + close_item(), stack: state.stack.drop_last() }
}

/// Closes lists while the innermost one is deeper than `level`.
pub open spec fn unwind(state: TocState, level: nat) -> TocState
    decreases state.stack.len(),
{
    if state.stack.len() > 0 && state.stack.last() > level {
        unwind(close_one(state), level)
    } else {
        state
    }
}

/// Closes every open list and gives the finished markup.
pub open spec fn close_all(state: TocState) -> Seq<char>
    decreases state.stack.len(),
{
    if state.stack.len() > 0 {
        close_all(close_one(state))
    } else {
        state.out
    }
}

/// Replaces the innermost level by `level`; on an empty stack, pushes it.
pub open spec fn settle(stack: Seq<nat>, level: nat) -> Seq<nat> {
    if stack.len() > 0 {
        stack.drop_last().push(level)
    } else {
        stack.push(level)
    }
}

/// One heading in the collapsing builder: a deeper heading opens exactly
/// one nested list, whatever the jump; an equal one adds a sibling; a
/// shallower one closes the deeper lists, adds a sibling and takes over
/// the innermost level.
pub open spec fn collapse_step(state: TocState, item: TocItemView) -> TocState {
    if state.stack.len() == 0 || item.level > state.stack.last() {
        TocState {
            out: state.out + open_item() + item.content,
            stack: state.stack.push(item.level),
        }
    } else if item.level == state.stack.last() {
        TocState { out: state.out + next_item() + item.content, stack: state.stack }
    } else {
        let closed = unwind(state, item.level);
        TocState {
            out: closed.out + next_item() + item.content,
            stack: settle(closed.stack, item.level),
        }
    }
}

pub open spec fn collapse_fold(items: Seq<TocItemView>) -> TocState
    decreases items.len(),
{
    if items.len() == 0 {
        start_state()
    } else {
        collapse_step(collapse_fold(items.drop_last()), items.last())
    }
}

/// The collapsing table of contents of `items`; none where there is no item.
pub open spec fn collapsed_toc(items: Seq<TocItemView>) -> Option<Seq<char>> {
    if items.len() == 0 {
        None
    } else {
        Some(close_all(collapse_fold(items)))
    }
}

pub open spec fn levels(stack: Seq<usize>) -> Seq<nat> {
    stack.map_values(|level: usize| level as nat)
}

pub open spec fn state_of(out: Seq<char>, stack: Seq<usize>) -> TocState {
    TocState { out, stack: levels(stack) }
}

fn unwind_to(out: &mut String, stack: &mut Vec<usize>, level: usize)
    ensures
        state_of(final(out)@, final(stack)@) == unwind(state_of(old(out)@, old(stack)@), level as nat),
{
    while stack.len() > 0 && stack[stack.len() - 1] > level
        invariant
            unwind(state_of(out@, stack@), level as nat) == unwind(
                state_of(old(out)@, old(stack)@),
                level as nat,
            ),
        decreases stack.len(),
    {
        let ghost before = state_of(out@, stack@);
        out.append("</li></ul>");
        stack.pop();
        assert(state_of(out@, stack@) == close_one(before)) by {
            assert(levels(stack@) =~= before.stack.drop_last());
        }
    }
}

fn close_lists(out: &mut String, stack: &mut Vec<usize>)
    ensures
        final(out)@ == close_all(state_of(old(out)@, old(stack)@)),
{
    while stack.len() > 0
        invariant
            close_all(state_of(out@, stack@)) == close_all(state_of(old(out)@, old(stack)@)),
        decreases stack.len(),
    {
        let ghost before = state_of(out@, stack@);
        out.append("</li></ul>");
        stack.pop();
        assert(state_of(out@, stack@) == close_one(before)) by {
            assert(levels(stack@) =~= before.stack.drop_last());
        }
    }
}

/// Builds the collapsing table of contents.
pub fn build_collapsed(items: &Vec<TocItem>) -> (toc: Option<String>)
    ensures
        crate::markup::text_view(toc) == collapsed_toc(items_view(items@)),
{
    if items.len() == 0 {
        return None;
    }
    let mut out = String::new();
    let mut stack: Vec<usize> = Vec::new();
    let mut i: usize = 0;
    assert(levels(stack@) =~= Seq::<nat>::empty());
    while i < items.len()
        invariant
            i <= items.len(),
            state_of(out@, stack@) == collapse_fold(items_view(items@).take(i as int)),
        decreases items.len() - i,
    {
        let ghost before = state_of(out@, stack@);
        let ghost item = items@[i as int]@;
        let level = items[i].level;
        if stack.len() == 0 || level > stack[stack.len() - 1] {
            out.append("<ul><li>");
            out.append(items[i].content.as_str());
            stack.push(level);
            assert(levels(stack@) =~= before.stack.push(level as nat));
        } else if level == stack[stack.len() - 1] {
            out.append("</li><li>");
            out.append(items[i].content.as_str());
        } else {
            unwind_to(&mut out, &mut stack, level);
            let ghost closed = state_of(out@, stack@);
            out.append("</li><li>");
            out.append(items[i].content.as_str());
            if stack.len() > 0 {
                stack.pop();
            }
            stack.push(level);
            assert(levels(stack@) =~= settle(closed.stack, level as nat));
        }
        assert(state_of(out@, stack@) == collapse_step(before, item));
        assert(items_view(items@).take(i + 1).drop_last() =~= items_view(items@).take(i as int));
        i += 1;
    }
    assert(items_view(items@).take(i as int) =~= items_view(items@));
    close_lists(&mut out, &mut stack);
    Some(out)
}

} // verus!
