//! The auto command menu above the composer.

use vstd::prelude::*;

use crate::app::command;
use crate::app::command::{
    completions, in_table, index_of, left_aligned, table, CommandSpec, EntryView,
};
use crate::app::text;
use crate::app::text::{cell_width, truncated};
use crate::strs;

verus! {

/// One rendered menu row: the marker-plus-usage cell and the summary cell.
#[derive(Clone, Debug, PartialEq, Eq)]
pub struct MenuRow {
    pub usage: String,
    pub summary: String,
}

/// A [`MenuRow`] as a mathematical value.
pub struct MenuRowView {
    pub usage: Seq<char>,
    pub summary: Seq<char>,
}

impl DeepView for MenuRow {
    type V = MenuRowView;

    open spec fn deep_view(&self) -> MenuRowView {
        MenuRowView { usage: self.usage@, summary: self.summary@ }
    }
}

/// The frame the renderer paints while the menu is open.
#[derive(Clone, Debug, PartialEq, Eq)]
pub struct CommandMenuFrame {
    pub rows: Vec<MenuRow>,
    pub selected: usize,
}

/// Live-filtered candidates and the highlight.
#[derive(Clone, Debug, PartialEq, Eq)]
pub struct CommandMenu {
    pub candidates: Vec<&'static str>,
    pub selected: usize,
}

/// A [`CommandMenu`] as a mathematical value.
pub struct MenuView {
    pub candidates: Seq<Seq<char>>,
    pub selected: usize,
}

impl DeepView for CommandMenu {
    type V = MenuView;

    open spec fn deep_view(&self) -> MenuView {
        MenuView { candidates: self.candidates.deep_view(), selected: self.selected }
    }
}

/// The names of some commands.
pub open spec fn names_of(entries: Seq<EntryView>) -> Seq<Seq<char>> {
    Seq::new(entries.len(), |i: int| entries[i].name)
}

/// A menu always highlights one of its candidates, and each is a command.
pub open spec fn menu_sound(menu: MenuView) -> bool {
    &&& menu.selected < menu.candidates.len()
    &&& forall|i: int|
        0 <= i < menu.candidates.len() ==> in_table(#[trigger] menu.candidates[i])
}

/// The menu for a draft: open over a bare `/word` with candidates, closed
/// otherwise. The highlight stays only while the candidates do.
#[verifier::opaque]
pub open spec fn menu_for(menu: Option<MenuView>, draft: Seq<char>) -> Option<MenuView> {
    let names = names_of(completions(draft));
    if names.len() == 0 {
        None
    } else {
        match menu {
            Some(menu) if menu.candidates == names => Some(menu),
            _ => Some(MenuView { candidates: names, selected: 0 }),
        }
    }
}

/// The table entry of a candidate.
pub open spec fn spec_of(name: Seq<char>) -> EntryView {
    table()[index_of(table(), name) as int]
}

/// The widest usage among the first candidates.
pub open spec fn widest_usage(names: Seq<Seq<char>>) -> nat
    decreases names.len(),
{
    if names.len() == 0 {
        0
    } else {
        let before = widest_usage(names.drop_last());
        let len = spec_of(names.last()).usage.len();
        if len > before {
            len
        } else {
            before
        }
    }
}

/// How many rows the frame shows.
pub open spec fn frame_rows(menu: MenuView, max_rows: nat) -> nat {
    let most = if max_rows == 0 {
        1
    } else {
        max_rows
    };
    if most < menu.candidates.len() {
        most
    } else {
        menu.candidates.len()
    }
}

/// The first candidate shown: the highlighted one stays visible.
pub open spec fn frame_start(menu: MenuView, max_rows: nat) -> nat {
    let rows = frame_rows(menu, max_rows);
    if menu.selected >= rows {
        (menu.selected + 1 - rows) as nat
    } else {
        0
    }
}

/// One row: marker, padded usage and summary, cut to the width.
pub open spec fn menu_row(menu: MenuView, index: int, width: nat) -> MenuRowView {
    let found = spec_of(menu.candidates[index]);
    let marker = if index == menu.selected {
        "▶"@
    } else {
        " "@
    };
    let usage = marker + " "@ + left_aligned(found.usage, widest_usage(menu.candidates)) + "  "@;
    MenuRowView {
        usage: truncated(usage, width),
        summary: truncated(
            found.summary,
            if width >= cell_width(usage) {
                (width - cell_width(usage)) as nat
            } else {
                0
            },
        ),
    }
}

/// The rows of the frame.
pub open spec fn menu_rows(menu: MenuView, width: nat, max_rows: nat) -> Seq<MenuRowView> {
    Seq::new(
        frame_rows(menu, max_rows),
        |k: int| menu_row(menu, frame_start(menu, max_rows) + k, width),
    )
}

/// Every candidate is a command.
proof fn completions_are_commands(draft: Seq<char>, k: int)
    requires
        0 <= k < completions(draft).len(),
    ensures
        in_table(completions(draft)[k].name),
{
    reveal(completions);
    let word = draft.skip(1);
    command::candidates_are_in_the_table(table(), word, k);
    let found = completions(draft)[k];
    let at = choose|at: int| 0 <= at < table().len() && table()[at] == found;
    command::present_names_are_found(table(), at);
}

/// The candidate names for a draft.
pub fn candidate_names(draft: &str) -> (names: Vec<&'static str>)
    ensures
        names.deep_view() == names_of(completions(draft@)),
        forall|i: int| 0 <= i < names@.len() ==> in_table((#[trigger] names@[i])@),
{
    let found: Vec<CommandSpec> = command::candidates(draft);
    let ghost all = found.deep_view();
    let mut names: Vec<&'static str> = Vec::new();
    let mut i: usize = 0;
    while i < found.len()
        invariant
            i <= found.len(),
            all == found.deep_view(),
            all == completions(draft@),
            names.len() == i,
            forall|k: int| 0 <= k < i ==> (#[trigger] names@[k])@ == all[k].name,
            forall|k: int| 0 <= k < i ==> in_table((#[trigger] names@[k])@),
        decreases found.len() - i,
    {
        proof {
            assert(all[i as int] == found@[i as int].deep_view());
            completions_are_commands(draft@, i as int);
        }
        names.push(found[i].name);
        i += 1;
    }
    proof {
        assert(names.deep_view() =~= names_of(all));
    }
    names
}

fn same_names(a: &Vec<&'static str>, b: &Vec<&'static str>) -> (yes: bool)
    ensures
        yes == (a.deep_view() == b.deep_view()),
{
    if a.len() != b.len() {
        assert(a.deep_view().len() != b.deep_view().len());
        return false;
    }
    let mut i: usize = 0;
    while i < a.len()
        invariant
            i <= a.len(),
            a.len() == b.len(),
            forall|k: int| 0 <= k < i ==> (#[trigger] a@[k])@ == b@[k]@,
        decreases a.len() - i,
    {
        if !strs::same(a[i], b[i]) {
            assert(a.deep_view()[i as int] != b.deep_view()[i as int]);
            return false;
        }
        i += 1;
    }
    assert(a.deep_view() =~= b.deep_view());
    true
}

impl CommandMenu {
    pub closed spec fn wf(&self) -> bool {
        menu_sound(self.deep_view())
    }

    pub fn new(candidates: Vec<&'static str>) -> (menu: CommandMenu)
        requires
            candidates@.len() > 0,
            forall|i: int| 0 <= i < candidates@.len() ==> in_table((#[trigger] candidates@[i])@),
        ensures
            menu.wf(),
            menu.deep_view() == (MenuView { candidates: candidates.deep_view(), selected: 0 }),
    {
        let menu = CommandMenu { candidates, selected: 0 };
        assert(forall|i: int|
            0 <= i < candidates@.len() ==> (#[trigger] menu.deep_view().candidates[i])
                == candidates@[i]@);
        menu
    }

    /// Re-filters after an edit. The highlight resets only when the candidate
    /// list changed.
    pub fn update(&mut self, candidates: Vec<&'static str>)
        requires
            old(self).wf(),
            candidates@.len() > 0,
            forall|i: int| 0 <= i < candidates@.len() ==> in_table((#[trigger] candidates@[i])@),
        ensures
            final(self).wf(),
            final(self).deep_view() == (if candidates.deep_view() == old(
                self,
            ).deep_view().candidates {
                old(self).deep_view()
            } else {
                MenuView { candidates: candidates.deep_view(), selected: 0 }
            }),
    {
        if !same_names(&candidates, &self.candidates) {
            assert(forall|i: int|
                0 <= i < candidates@.len() ==> (#[trigger] candidates.deep_view()[i])
                    == candidates@[i]@);
            self.candidates = candidates;
            self.selected = 0;
        }
    }

    /// Moves the highlight; returns whether it moved.
    pub fn move_up(&mut self) -> (moved: bool)
        requires
            old(self).wf(),
        ensures
            final(self).wf(),
            moved == (old(self).selected > 0),
            final(self).deep_view() == (MenuView {
                selected: if moved {
                    (old(self).selected - 1) as usize
                } else {
                    old(self).selected
                },
                ..old(self).deep_view()
            }),
    {
        if self.selected == 0 {
            return false;
        }
        self.selected -= 1;
        true
    }

    /// Moves the highlight; returns whether it moved.
    pub fn move_down(&mut self) -> (moved: bool)
        requires
            old(self).wf(),
        ensures
            final(self).wf(),
            moved == (old(self).selected + 1 < old(self).deep_view().candidates.len()),
            final(self).deep_view() == (MenuView {
                selected: if moved {
                    (old(self).selected + 1) as usize
                } else {
                    old(self).selected
                },
                ..old(self).deep_view()
            }),
    {
        if self.selected >= self.candidates.len() - 1 {
            return false;
        }
        self.selected += 1;
        true
    }

    /// The highlighted command name.
    pub fn selected_name(&self) -> (name: &'static str)
        requires
            self.wf(),
        ensures
            name@ == self.deep_view().candidates[self.selected as int],
            in_table(name@),
    {
        let name = self.candidates[self.selected];
        assert(self.deep_view().candidates[self.selected as int] == name@);
        name
    }

    fn usage_cells(&self) -> (len: usize)
        requires
            self.wf(),
        ensures
            len == widest_usage(self.deep_view().candidates),
    {
        let ghost all = self.candidates.deep_view();
        let mut widest: usize = 0;
        let mut i: usize = 0;
        while i < self.candidates.len()
            invariant
                i <= self.candidates.len(),
                all == self.candidates.deep_view(),
                self.wf(),
                widest == widest_usage(all.take(i as int)),
            decreases self.candidates.len() - i,
        {
            proof {
                assert(all.take(i as int + 1).drop_last() =~= all.take(i as int));
                assert(all.take(i as int + 1).last() == all[i as int]);
                assert(in_table(self.deep_view().candidates[i as int]));
            }
            let found = command::spec(self.candidates[i]);
            let len = found.usage.unicode_len();
            if len > widest {
                widest = len;
            }
            i += 1;
        }
        proof {
            assert(all.take(i as int) =~= all);
        }
        widest
    }

    /// Projects at most `max_rows` rows for `width` cells, windowed so the
    /// highlighted row stays visible.
    pub fn frame(&self, width: usize, max_rows: usize) -> (frame: CommandMenuFrame)
        requires
            self.wf(),
        ensures
            frame.rows.deep_view() == menu_rows(self.deep_view(), width as nat, max_rows as nat),
            frame.selected == self.selected - frame_start(self.deep_view(), max_rows as nat),
            frame.selected < frame.rows@.len(),
    {
        let ghost view = self.deep_view();
        let most: usize = if max_rows == 0 {
            1
        } else {
            max_rows
        };
        let count = if most < self.candidates.len() {
            most
        } else {
            self.candidates.len()
        };
        let start: usize = if self.selected >= count {
            self.selected - count + 1
        } else {
            0
        };
        let usage_width = self.usage_cells();
        let mut rows: Vec<MenuRow> = Vec::new();
        let mut k: usize = 0;
        while k < count
            invariant
                k <= count,
                view == self.deep_view(),
                self.wf(),
                count == frame_rows(view, max_rows as nat),
                start == frame_start(view, max_rows as nat),
                start + count <= self.candidates@.len(),
                usage_width == widest_usage(view.candidates),
                rows.len() == k,
                forall|j: int|
                    0 <= j < k ==> (#[trigger] rows@[j]).deep_view() == menu_row(
                        view,
                        start + j,
                        width as nat,
                    ),
            decreases count - k,
        {
            let index: usize = start + k;
            assert(in_table(view.candidates[index as int]));
            let found = command::spec(self.candidates[index]);
            let marker = if index == self.selected {
                "▶"
            } else {
                " "
            };
            let mut usage = strs::cat3(
                marker,
                " ",
                command::align_left(found.usage, usage_width).as_str(),
            );
            usage.push_str("  ");
            let summary_width = width.saturating_sub(text::width(usage.as_str()));
            rows.push(
                MenuRow {
                    usage: text::truncate(usage.as_str(), width),
                    summary: text::truncate(found.summary, summary_width),
                },
            );
            k += 1;
        }
        proof {
            assert(rows.deep_view() =~= menu_rows(view, width as nat, max_rows as nat));
        }
        CommandMenuFrame { rows, selected: self.selected - start }
    }
}

/// A one-row menu that a key cycles through; nothing is chosen before the first
/// press.
#[derive(Clone, Debug, PartialEq, Eq)]
pub struct CompletionMenu {
    pub candidates: Vec<&'static str>,
    pub selected: Option<usize>,
}

/// The candidate after the chosen one, around the end.
pub open spec fn cycled(selected: Option<usize>, count: nat) -> usize {
    match selected {
        None => 0,
        Some(index) => ((index + 1) % count as int) as usize,
    }
}

/// The names of a row, the chosen one in brackets.
pub open spec fn row_names(names: Seq<Seq<char>>, selected: Option<usize>) -> Seq<Seq<char>> {
    Seq::new(
        names.len(),
        |i: int|
            if selected is Some && selected->0 == i {
                "["@ + names[i] + "]"@
            } else {
                names[i]
            },
    )
}

impl CompletionMenu {
    pub fn new(candidates: Vec<&'static str>) -> (menu: CompletionMenu)
        ensures
            menu.candidates == candidates,
            menu.selected is None,
    {
        CompletionMenu { candidates, selected: None }
    }

    /// Advances to the next candidate and returns its name.
    pub fn cycle(&mut self) -> (name: &'static str)
        requires
            old(self).candidates@.len() > 0,
        ensures
            final(self).candidates == old(self).candidates,
            final(self).selected == Some(
                cycled(old(self).selected, old(self).candidates@.len()),
            ),
            name@ == old(self).candidates@[cycled(
                old(self).selected,
                old(self).candidates@.len(),
            ) as int]@,
    {
        let count = self.candidates.len();
        let next: usize = match self.selected {
            None => 0,
            Some(index) => {
                if index % count == count - 1 {
                    0
                } else {
                    index % count + 1
                }
            },
        };
        proof {
            if self.selected is Some {
                let index = self.selected->0 as int;
                vstd::arithmetic::div_mod::lemma_add_mod_noop(index, 1, count as int);
                if count > 1 {
                    vstd::arithmetic::div_mod::lemma_small_mod(1, count as nat);
                }
                if index % count as int == count - 1 {
                    vstd::arithmetic::div_mod::lemma_mod_self_0(count as int);
                } else {
                    vstd::arithmetic::div_mod::lemma_small_mod(
                        (index % count as int + 1) as nat,
                        count as nat,
                    );
                }
            }
        }
        self.selected = Some(next);
        self.candidates[next]
    }

    /// The single row shown above the input while the menu is open.
    pub fn line(&self) -> (text: String)
        ensures
            text@ == "commands: "@ + crate::strs::join(
                row_names(self.candidates.deep_view(), self.selected),
                " "@,
            ),
    {
        let ghost all = self.candidates.deep_view();
        let mut names: Vec<String> = Vec::new();
        let mut i: usize = 0;
        while i < self.candidates.len()
            invariant
                i <= self.candidates.len(),
                all == self.candidates.deep_view(),
                names.len() == i,
                forall|k: int|
                    0 <= k < i ==> (#[trigger] names@[k])@ == row_names(all, self.selected)[k],
            decreases self.candidates.len() - i,
        {
            assert(all[i as int] == self.candidates@[i as int]@);
            let chosen = match self.selected {
                Some(index) => index == i,
                None => false,
            };
            if chosen {
                names.push(strs::cat3("[", self.candidates[i], "]"));
            } else {
                names.push(self.candidates[i].to_owned());
            }
            i += 1;
        }
        assert(names.deep_view() =~= row_names(all, self.selected));
        strs::cat("commands: ", strs::joined(&names, " ").as_str())
    }
}

// ---------------------------------------------------------------------------
// Laws
// ---------------------------------------------------------------------------

/// The frame always shows the highlighted candidate.
pub proof fn highlight_stays_visible(menu: MenuView, max_rows: nat)
    requires
        menu_sound(menu),
    ensures
        frame_rows(menu, max_rows) > 0,
        frame_start(menu, max_rows) <= menu.selected,
        menu.selected < frame_start(menu, max_rows) + frame_rows(menu, max_rows),
        frame_start(menu, max_rows) + frame_rows(menu, max_rows) <= menu.candidates.len(),
{
}

/// The menu is open exactly while a draft has candidates; it lists them in order,
/// and the highlight stays where it is as long as they do.
pub proof fn the_menu_follows_the_draft(menu: Option<MenuView>, draft: Seq<char>, i: int)
    ensures
        menu_for(menu, draft) is Some <==> completions(draft).len() > 0,
        0 <= i < completions(draft).len() ==> menu_for(menu, draft).unwrap().candidates.len()
            == completions(draft).len() && menu_for(menu, draft).unwrap().candidates[i]
            == completions(draft)[i].name,
        menu_for(menu, draft) is Some && menu is None ==> menu_for(menu, draft).unwrap().selected
            == 0,
        menu_for(menu, draft) is Some && menu is Some ==> menu_for(menu, draft).unwrap().selected
            == menu.unwrap().selected || menu_for(menu, draft).unwrap().selected == 0,
        menu_for(menu_for(menu, draft), draft) == menu_for(menu, draft),
{
    reveal(menu_for);
}

/// The rows are those of consecutive candidates, each with its usage and summary;
/// the highlighted one alone is marked.
pub proof fn rows_are_those_of_the_candidates(
    menu: MenuView,
    width: nat,
    max_rows: nat,
    k: int,
)
    requires
        menu.selected < menu.candidates.len(),
        0 <= k < menu_rows(menu, width, max_rows).len(),
    ensures
        ({
            let at = frame_start(menu, max_rows) + k;
            let found = table()[index_of(table(), menu.candidates[at]) as int];
            let usage = (if at == menu.selected {
                "▶"@
            } else {
                " "@
            }) + " "@ + left_aligned(found.usage, widest_usage(menu.candidates)) + "  "@;
            &&& 0 <= at < menu.candidates.len()
            &&& menu_rows(menu, width, max_rows)[k].usage == truncated(usage, width)
            &&& cell_width(usage) <= width ==> menu_rows(menu, width, max_rows)[k].summary
                == truncated(found.summary, (width - cell_width(usage)) as nat)
        }),
        menu.candidates.len() <= max_rows ==> menu_rows(menu, width, max_rows).len()
            == menu.candidates.len() && frame_start(menu, max_rows) == 0,
{
}

/// Completing again and again goes through all candidates and begins anew.
pub proof fn completing_goes_round(index: usize, count: nat)
    requires
        index < count <= usize::MAX,
    ensures
        cycled(None, count) == 0,
        index + 1 < count ==> cycled(Some(index), count) == index + 1,
        index + 1 == count ==> cycled(Some(index), count) == 0,
{
    if index + 1 < count {
        vstd::arithmetic::div_mod::lemma_small_mod((index + 1) as nat, count);
    } else {
        vstd::arithmetic::div_mod::lemma_mod_self_0(count as int);
    }
}

} // verus!
