//! A list of labelled items, some of which can be selected.

use vstd::prelude::*;

verus! {

/// One line of a menu.
#[derive(Debug)]
pub struct MenuItem<T> {
    /// What choosing this line means to the owner of the menu.
    pub id: T,
    /// The label to show.
    pub string: &'static str,
    /// Whether the selection may rest on this line.
    pub selectable: bool,
}

/// A menu together with the position of its selection.
#[derive(Debug)]
pub struct MenuMode<T> {
    items: Vec<MenuItem<T>>,
    selected: Option<usize>,
}

/// The least index `i >= from` for which `marks[i]` holds, if there is one.
pub open spec fn first_marked(marks: Seq<bool>, from: int) -> Option<int>
    decreases marks.len() - from,
{
    if from >= marks.len() {
        None
    } else if 0 <= from && marks[from] {
        Some(from)
    } else {
        first_marked(marks, from + 1)
    }
}

/// The greatest index `i < end` for which `marks[i]` holds, if there is one.
pub open spec fn last_marked(marks: Seq<bool>, end: int) -> Option<int>
    decreases end,
{
    if end <= 0 {
        None
    } else if end <= marks.len() && marks[end - 1] {
        Some(end - 1)
    } else {
        last_marked(marks, end - 1)
    }
}

/// `first_marked` finds a marked index, and none lies between `from` and it.
pub proof fn lemma_first_marked(marks: Seq<bool>, from: int)
    requires
        0 <= from,
    ensures
        match first_marked(marks, from) {
            Some(i) => from <= i < marks.len() && marks[i] && forall|j: int|
                from <= j < i ==> !marks[j],
            None => forall|j: int| from <= j < marks.len() ==> !marks[j],
        },
    decreases marks.len() - from,
{
    if from < marks.len() && !marks[from] {
        lemma_first_marked(marks, from + 1);
    }
}

/// `last_marked` finds a marked index, and none lies between it and `end`.
pub proof fn lemma_last_marked(marks: Seq<bool>, end: int)
    requires
        end <= marks.len(),
    ensures
        match last_marked(marks, end) {
            Some(i) => 0 <= i < end && marks[i] && forall|j: int| i < j < end ==> !marks[j],
            None => forall|j: int| 0 <= j < end ==> !marks[j],
        },
    decreases end,
{
    if end > 0 && !marks[end - 1] {
        lemma_last_marked(marks, end - 1);
    }
}

/// Which of `items` can be selected.
pub open spec fn marks_of<T>(items: Seq<MenuItem<T>>) -> Seq<bool> {
    Seq::new(items.len(), |i: int| items[i].selectable)
}

/// The mathematical content of a [`MenuMode`].
pub struct MenuView<T> {
    pub items: Seq<MenuItem<T>>,
    pub selected: Option<int>,
}

impl<T> MenuView<T> {
    /// Which lines can be selected.
    pub open spec fn marks(self) -> Seq<bool> {
        marks_of(self.items)
    }

    /// The selection rests on a selectable line, or on none if there is none.
    pub open spec fn wf(self) -> bool {
        match self.selected {
            Some(i) => 0 <= i < self.items.len() && self.items[i].selectable,
            None => forall|j: int| 0 <= j < self.items.len() ==> !self.items[j].selectable,
        }
    }

    /// A fresh menu: the selection rests on the first selectable line.
    pub open spec fn fresh(items: Seq<MenuItem<T>>) -> MenuView<T> {
        MenuView { items, selected: first_marked(marks_of(items), 0) }
    }

    /// The selection moved to the next selectable line, from the last one
    /// round to the first.
    pub open spec fn down(self) -> MenuView<T> {
        match self.selected {
            None => self,
            Some(at) => MenuView {
                items: self.items,
                selected: match first_marked(self.marks(), at + 1) {
                    Some(i) => Some(i),
                    None => first_marked(self.marks(), 0),
                },
            },
        }
    }

    /// The selection moved to the previous selectable line, from the first
    /// one round to the last.
    pub open spec fn up(self) -> MenuView<T> {
        match self.selected {
            None => self,
            Some(at) => MenuView {
                items: self.items,
                selected: match last_marked(self.marks(), at) {
                    Some(i) => Some(i),
                    None => last_marked(self.marks(), self.items.len() as int),
                },
            },
        }
    }

    /// The identity of the selected line.
    pub open spec fn chosen(self) -> Option<T> {
        match self.selected {
            Some(i) => Some(self.items[i].id),
            None => None,
        }
    }
}

/// The selection of a fresh menu rests on a selectable line, or on none if
/// there is none.
pub proof fn lemma_fresh_wf<T>(items: Seq<MenuItem<T>>)
    ensures
        MenuView::fresh(items).wf(),
{
    let marks = marks_of(items);
    lemma_first_marked(marks, 0);
    assert forall|j: int| 0 <= j < items.len() implies marks[j] == (#[trigger] items[j]).selectable by {}
}

/// Moving the selection keeps it on a selectable line.
pub proof fn lemma_moves_keep_wf<T>(menu: MenuView<T>)
    requires
        menu.wf(),
    ensures
        menu.down().wf(),
        menu.up().wf(),
{
    let marks = menu.marks();
    assert forall|j: int| 0 <= j < marks.len() implies marks[j] == menu.items[j].selectable by {}
    lemma_first_marked(marks, 0);
    lemma_last_marked(marks, marks.len() as int);
    if let Some(at) = menu.selected {
        assert(marks[at]);
        lemma_first_marked(marks, at + 1);
        lemma_last_marked(marks, at);
    }
}

impl<T> View for MenuMode<T> {
    type V = MenuView<T>;

    closed spec fn view(&self) -> MenuView<T> {
        MenuView {
            items: self.items@,
            selected: match self.selected {
                Some(i) => Some(i as int),
                None => None,
            },
        }
    }
}

impl<T> MenuMode<T> {
    /// A menu of `items` with the selection on the first selectable one.
    pub fn new(items: Vec<MenuItem<T>>) -> (menu: MenuMode<T>)
        ensures
            menu@ == MenuView::fresh(items@),
            menu@.wf(),
    {
        let selected = Self::find_from(&items, 0);
        proof {
            lemma_fresh_wf(items@);
        }
        MenuMode { items, selected }
    }

    /// The first selectable item at or after `from`.
    fn find_from(items: &Vec<MenuItem<T>>, from: usize) -> (found: Option<usize>)
        ensures
            match found {
                Some(i) => first_marked(marks_of(items@), from as int) == Some(i as int),
                None => first_marked(marks_of(items@), from as int) is None,
            },
    {
        let ghost marks = marks_of(items@);
        let mut i: usize = from;
        while i < items.len()
            invariant
                from <= i,
                marks == marks_of(items@),
                first_marked(marks, from as int) == first_marked(marks, i as int),
            decreases items.len() - i,
        {
            if items[i].selectable {
                return Some(i);
            }
            i += 1;
        }
        None
    }

    /// The last selectable item before `end`.
    fn find_before(items: &Vec<MenuItem<T>>, end: usize) -> (found: Option<usize>)
        requires
            end <= items@.len(),
        ensures
            match found {
                Some(i) => last_marked(marks_of(items@), end as int) == Some(i as int),
                None => last_marked(marks_of(items@), end as int) is None,
            },
    {
        let ghost marks = marks_of(items@);
        let mut i: usize = end;
        while i > 0
            invariant
                i <= end <= items@.len(),
                marks == marks_of(items@),
                last_marked(marks, end as int) == last_marked(marks, i as int),
            decreases i,
        {
            if items[i - 1].selectable {
                return Some(i - 1);
            }
            i -= 1;
        }
        None
    }

    /// Moves the selection to the next selectable item, wrapping round.
    pub fn down(&mut self)
        requires
            old(self)@.wf(),
        ensures
            final(self)@ == old(self)@.down(),
            final(self)@.wf(),
    {
        proof {
            lemma_moves_keep_wf(self@);
        }
        match self.selected {
            None => {},
            Some(selected) => {
                assert(selected < self.items.len());
                let next = Self::find_from(&self.items, selected + 1);
                self.selected = match next {
                    Some(i) => Some(i),
                    None => Self::find_from(&self.items, 0),
                };
            },
        }
    }

    /// Moves the selection to the previous selectable item, wrapping round.
    pub fn up(&mut self)
        requires
            old(self)@.wf(),
        ensures
            final(self)@ == old(self)@.up(),
            final(self)@.wf(),
    {
        proof {
            lemma_moves_keep_wf(self@);
        }
        match self.selected {
            None => {},
            Some(selected) => {
                let next = Self::find_before(&self.items, selected);
                self.selected = match next {
                    Some(i) => Some(i),
                    None => Self::find_before(&self.items, self.items.len()),
                };
            },
        }
    }

    /// The identity of the selected item.
    pub fn select(&self) -> (id: Option<&T>)
        requires
            self@.wf(),
        ensures
            match id {
                Some(id) => self@.chosen() == Some(*id),
                None => self@.chosen() is None,
            },
    {
        match self.selected {
            None => None,
            Some(idx) => Some(&self.items[idx].id),
        }
    }

    pub fn get_items(&self) -> (items: &Vec<MenuItem<T>>)
        ensures
            items@ == self@.items,
    {
        &self.items
    }

    pub fn get_selected(&self) -> (selected: &Option<usize>)
        ensures
            match *selected {
                Some(i) => self@.selected == Some(i as int),
                None => self@.selected is None,
            },
    {
        &self.selected
    }
}

} // verus!
