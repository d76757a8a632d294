//! Grouped lists: a titled block of items (an icon, a label and a
//! detail each), collected by a builder and suppressed when empty.

use vstd::prelude::*;
use crate::text::{push_str, string_from};

verus! {

/// The line that a group prints for one item: a four-space indent, then
/// the label alone for a plain item, the icon and label when there is no
/// detail, or the icon, label, two spaces and the detail.
pub open spec fn item_line(icon: Seq<char>, label: Seq<char>, detail: Seq<char>) -> Seq<char> {
    let indent = seq![' ', ' ', ' ', ' '];
    if icon.len() == 0 && detail.len() == 0 {
        indent + label
    } else if detail.len() == 0 {
        indent + icon + seq![' '] + label
    } else {
        indent + icon + seq![' '] + label + seq![' ', ' '] + detail
    }
}

/// The lines that a group with `items` prints under `title`: nothing at
/// all without items; otherwise the title with a two-space indent, a line
/// per item, and a blank line.
pub open spec fn group_lines(
    title: Seq<char>,
    items: Seq<(Seq<char>, Seq<char>, Seq<char>)>,
) -> Seq<Seq<char>> {
    if items.len() == 0 {
        Seq::empty()
    } else {
        seq![seq![' ', ' '] + title] + items.map_values(
            |it: (Seq<char>, Seq<char>, Seq<char>)| item_line(it.0, it.1, it.2),
        ) + seq![Seq::<char>::empty()]
    }
}

/// The items of one titled group, collected before the group is printed.
pub struct Group {
    items: Vec<(String, String, String)>,
}

impl Group {
    /// The items added so far, as (icon, label, detail), in order.
    pub closed spec fn entries(&self) -> Seq<(Seq<char>, Seq<char>, Seq<char>)> {
        self.items@.map_values(|it: (String, String, String)| (it.0@, it.1@, it.2@))
    }

    /// An empty group.
    pub fn new() -> (g: Group)
        ensures
            g.entries() == Seq::<(Seq<char>, Seq<char>, Seq<char>)>::empty(),
    {
        let g = Group { items: Vec::new() };
        assert(g.entries() =~= Seq::<(Seq<char>, Seq<char>, Seq<char>)>::empty());
        g
    }

    /// Adds an item with an icon, a label and a detail (empty for none).
    pub fn item(&mut self, icon: &str, label: &str, detail: &str)
        ensures
            final(self).entries() == old(self).entries().push((icon@, label@, detail@)),
    {
        self.items.push((icon.to_owned(), label.to_owned(), detail.to_owned()));
        assert(final(self).entries() =~= old(self).entries().push((icon@, label@, detail@)));
    }

    /// Adds a plain item: a label without icon or detail.
    pub fn item_plain(&mut self, label: &str)
        ensures
            final(self).entries() == old(self).entries().push(
                (Seq::<char>::empty(), label@, Seq::<char>::empty()),
            ),
    {
        self.items.push((String::new(), label.to_owned(), String::new()));
        assert(final(self).entries() =~= old(self).entries().push(
            (Seq::<char>::empty(), label@, Seq::<char>::empty()),
        ));
    }

    /// The number of items added so far.
    pub fn len(&self) -> (n: usize)
        ensures
            n == self.entries().len(),
    {
        self.items.len()
    }

    /// The items added so far, as (icon, label, detail), in order.
    pub fn items(&self) -> (r: Vec<(String, String, String)>)
        ensures
            r@.map_values(|it: (String, String, String)| (it.0@, it.1@, it.2@)) == self.entries(),
    {
        let mut r: Vec<(String, String, String)> = Vec::new();
        for i in 0..self.items.len()
            invariant
                r.len() == i,
                i <= self.items.len(),
                forall|j: int|
                    0 <= j < i ==> (#[trigger] r@[j]).0@ == self.items@[j].0@ && r@[j].1@
                        == self.items@[j].1@ && r@[j].2@ == self.items@[j].2@,
        {
            let it = &self.items[i];
            r.push((it.0.clone(), it.1.clone(), it.2.clone()));
        }
        assert(r@.map_values(|it: (String, String, String)| (it.0@, it.1@, it.2@))
            =~= self.entries());
        r
    }

    /// Whether no item has been added.
    pub fn is_empty(&self) -> (b: bool)
        ensures
            b == (self.entries().len() == 0),
    {
        self.items.len() == 0
    }

    /// The lines that the group prints under `title`; none when the group
    /// holds no item.
    pub fn render(&self, title: &str) -> (lines: Vec<String>)
        ensures
            lines@.map_values(|l: String| l@) == group_lines(title@, self.entries()),
    {
        let mut lines: Vec<String> = Vec::new();
        if self.items.len() == 0 {
            assert(lines@.map_values(|l: String| l@) =~= group_lines(title@, self.entries()));
            return lines;
        }
        let mut head: Vec<char> = Vec::new();
        head.push(' ');
        head.push(' ');
        push_str(&mut head, title);
        lines.push(string_from(&head));
        for i in 0..self.items.len()
            invariant
                self.entries().len() == self.items.len(),
                lines.len() == i + 1,
                lines@[0]@ == seq![' ', ' '] + title@,
                forall|j: int|
                    0 <= j < i ==> (#[trigger] lines@[j + 1])@ == item_line(
                        self.entries()[j].0,
                        self.entries()[j].1,
                        self.entries()[j].2,
                    ),
        {
            let icon = self.items[i].0.as_str();
            let label = self.items[i].1.as_str();
            let detail = self.items[i].2.as_str();
            let mut line: Vec<char> = Vec::new();
            push_str(&mut line, "    ");
            proof {
                reveal_strlit("    ");
            }
            if icon.is_empty() && detail.is_empty() {
                push_str(&mut line, label);
            } else if detail.is_empty() {
                push_str(&mut line, icon);
                line.push(' ');
                push_str(&mut line, label);
            } else {
                push_str(&mut line, icon);
                line.push(' ');
                push_str(&mut line, label);
                line.push(' ');
                line.push(' ');
                push_str(&mut line, detail);
            }
            assert(line@ =~= item_line(
                self.entries()[i as int].0,
                self.entries()[i as int].1,
                self.entries()[i as int].2,
            ));
            lines.push(string_from(&line));
        }
        lines.push(String::new());
        let ghost expected = group_lines(title@, self.entries());
        let ghost n = self.items.len() as int;
        assert forall|k: int| 0 <= k < lines.len() implies lines@[k]@ == expected[k] by {
            if 1 <= k <= n {
                assert(lines@[(k - 1) + 1]@ == item_line(
                    self.entries()[k - 1].0,
                    self.entries()[k - 1].1,
                    self.entries()[k - 1].2,
                ));
            }
        }
        assert(lines@.map_values(|l: String| l@) =~= expected);
        lines
    }
}

/// Hands an empty group to `builder` and returns the lines that the group,
/// as the builder left it, prints under `title`: nothing at all when the
/// builder adds no item.
pub fn group<F: FnOnce(&mut Group)>(title: &str, builder: F) -> (lines: Vec<String>)
    requires
        forall|g: &mut Group| builder.requires((g,)),
    ensures
        exists|g: &mut Group|
            {
                &&& (*g).entries().len() == 0
                &&& #[trigger] builder.ensures((g,), ())
                &&& lines@.map_values(|l: String| l@) == group_lines(title@, final(g).entries())
            },
{
    let mut g = Group::new();
    builder(&mut g);
    g.render(title)
}

} // verus!
