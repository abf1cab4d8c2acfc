//! The tools that an agent may call, by their names.

use crate::text::same_text;
use vstd::prelude::*;

verus! {

/// The tools of an agent. A name has at most one tool.
pub struct ToolRegistry<T> {
    tools: Vec<(String, T)>,
}

/// Whether a name stands at a place among some entries.
pub open spec fn is_at<T>(entries: Seq<(Seq<char>, T)>, name: Seq<char>, i: int) -> bool {
    0 <= i < entries.len() && entries[i].0 == name
}

/// Whether no name comes twice.
pub open spec fn names_differ<T>(entries: Seq<(Seq<char>, T)>) -> bool {
    forall|i: int, j: int|
        0 <= i < j < entries.len() ==> (#[trigger] entries[i]).0 != (#[trigger] entries[j]).0
}

/// The tools by their names.
pub open spec fn by_name<T>(entries: Seq<(Seq<char>, T)>) -> Map<Seq<char>, T> {
    Map::new(
        |name: Seq<char>| exists|i: int| is_at(entries, name, i),
        |name: Seq<char>| entries[choose|i: int| is_at(entries, name, i)].1,
    )
}

/// Whether one of the names is that name.
pub open spec fn is_named(names: Seq<&str>, name: Seq<char>) -> bool {
    exists|i: int| 0 <= i < names.len() && (#[trigger] names[i])@ == name
}

/// An entry is the tool of its name.
pub proof fn an_entry_is_the_tool_of_its_name<T>(entries: Seq<(Seq<char>, T)>, i: int)
    requires
        names_differ(entries),
        0 <= i < entries.len(),
    ensures
        by_name(entries).contains_key(entries[i].0),
        by_name(entries)[entries[i].0] == entries[i].1,
{
    let name = entries[i].0;
    assert(is_at(entries, name, i));
    let k = choose|k: int| is_at(entries, name, k);
    assert(entries[k].0 == entries[i].0);
    assert(k == i);
}

/// The tools of a list of names, in the order of the entries.
pub open spec fn tools_of<T>(entries: Seq<(Seq<char>, T)>) -> Seq<T> {
    entries.map_values(|e: (Seq<char>, T)| e.1)
}

impl<T> ToolRegistry<T> {
    /// No name comes twice.
    #[verifier::type_invariant]
    spec fn well_formed(self) -> bool {
        names_differ(self.entries())
    }

    /// The tools by their names.
    pub open spec fn view(self) -> Map<Seq<char>, T> {
        by_name(self.entries())
    }

    /// The names and tools in the order in which they are listed.
    pub closed spec fn entries(self) -> Seq<(Seq<char>, T)> {
        self.tools@.map_values(|e: (String, T)| (e.0@, e.1))
    }

    /// The registry without tools.
    pub fn new() -> (registry: ToolRegistry<T>)
        ensures
            registry@ == Map::<Seq<char>, T>::empty(),
            registry.entries() == Seq::<(Seq<char>, T)>::empty(),
    {
        let registry = ToolRegistry { tools: Vec::new() };
        assert(registry@ =~= Map::<Seq<char>, T>::empty());
        registry
    }

    /// The place of a name.
    fn place(&self, name: &str) -> (found: Option<usize>)
        ensures
            match found {
                Some(i) => is_at(self.entries(), name@, i as int),
                None => !self@.contains_key(name@),
            },
    {
        let mut i: usize = 0;
        while i < self.tools.len()
            invariant
                i <= self.tools.len(),
                forall|k: int| 0 <= k < i ==> !#[trigger] is_at(self.entries(), name@, k),
            decreases self.tools.len() - i,
        {
            if same_text(self.tools[i].0.as_str(), name) {
                return Some(i);
            }
            i = i + 1;
        }
        None
    }

    /// Registers a tool under a name; a tool that had the name gives way.
    pub fn register(&mut self, name: String, tool: T)
        ensures
            final(self)@ == old(self)@.insert(name@, tool),
    {
        proof {
            use_type_invariant(&*self);
        }
        let found = self.place(name.as_str());
        let ghost before = self.entries();
        let mut tools: Vec<(String, T)> = Vec::new();
        std::mem::swap(&mut tools, &mut self.tools);
        let ghost named = name@;
        match found {
            Some(i) => {
                tools.set(i, (name, tool));
            },
            None => {
                assert forall|k: int| 0 <= k < before.len() implies (#[trigger] before[k]).0
                    != named by {
                    if before[k].0 == named {
                        assert(is_at(before, named, k));
                    }
                }
                tools.push((name, tool));
            },
        }
        proof {
            let after = tools@.map_values(|e: (String, T)| (e.0@, e.1));
            lemma_insert(before, after, named, tool, match found {
                Some(i) => i as int,
                None => before.len() as int,
            });
        }
        self.tools = tools;
    }

    /// The tool with a name.
    pub fn get(&self, name: &str) -> (tool: Option<&T>)
        ensures
            match tool {
                Some(t) => self@.contains_key(name@) && *t == self@[name@],
                None => !self@.contains_key(name@),
            },
    {
        proof {
            use_type_invariant(self);
        }
        match self.place(name) {
            Some(i) => {
                proof {
                    an_entry_is_the_tool_of_its_name(self.entries(), i as int);
                }
                Some(&self.tools[i].1)
            },
            None => None,
        }
    }

    /// Whether there is a tool with a name.
    pub fn contains(&self, name: &str) -> (hit: bool)
        ensures
            hit == self@.contains_key(name@),
    {
        self.get(name).is_some()
    }

    /// The tools, each once.
    pub fn definitions(&self) -> (list: Vec<&T>)
        ensures
            names_differ(self.entries()),
            list@.map_values(|t: &T| *t) == tools_of(self.entries()),
    {
        proof {
            use_type_invariant(self);
        }
        let mut list: Vec<&T> = Vec::new();
        let mut i: usize = 0;
        while i < self.tools.len()
            invariant
                i <= self.tools.len(),
                list@.len() == i,
                forall|k: int| 0 <= k < i ==> *(#[trigger] list@[k]) == self.tools@[k].1,
            decreases self.tools.len() - i,
        {
            list.push(&self.tools[i].1);
            i = i + 1;
        }
        assert(list@.map_values(|t: &T| *t) == tools_of(self.entries()));
        list
    }

    /// The tools with one of the names, each once.
    pub fn definitions_filtered(&self, tool_names: &[String]) -> (list: Vec<&T>)
        ensures
            list@.map_values(|t: &T| *t) == tools_of(
                self.entries().filter(
                    |e: (Seq<char>, T)| crate::text::texts(tool_names@).contains(e.0),
                ),
            ),
    {
        let ghost all = self.entries();
        let ghost names = crate::text::texts(tool_names@);
        let ghost keep = |e: (Seq<char>, T)| names.contains(e.0);
        let mut list: Vec<&T> = Vec::new();
        let mut i: usize = 0;
        assert(list@.map_values(|t: &T| *t) == tools_of(all.take(0).filter(keep))) by {
            reveal(Seq::filter);
        }
        while i < self.tools.len()
            invariant
                i <= self.tools.len(),
                all == self.entries(),
                names == crate::text::texts(tool_names@),
                keep == (|e: (Seq<char>, T)| names.contains(e.0)),
                list@.map_values(|t: &T| *t) == tools_of(all.take(i as int).filter(keep)),
            decreases self.tools.len() - i,
        {
            let entry = &self.tools[i];
            assert(all[i as int] == (entry.0@, entry.1));
            let ghost kept = all.take(i as int).filter(keep);
            proof {
                crate::lists::lemma_filter_step(all, i as int, keep);
            }
            if names_hold(tool_names, entry.0.as_str()) {
                let ghost before = list@;
                list.push(&entry.1);
                assert(list@.map_values(|t: &T| *t) == before.map_values(|t: &T| *t).push(
                    entry.1,
                ));
                assert(tools_of(kept.push(all[i as int])) == tools_of(kept).push(entry.1));
            }
            i = i + 1;
        }
        assert(all.take(i as int) == all);
        list
    }

    /// Keeps only the tools with one of the names.
    pub fn retain_only(&mut self, names: &[&str])
        ensures
            final(self)@ == old(self)@.restrict(
                Set::new(|name: Seq<char>| is_named(names@, name)),
            ),
    {
        proof {
            use_type_invariant(&*self);
        }
        let ghost before = self.entries();
        let mut tools: Vec<(String, T)> = Vec::new();
        std::mem::swap(&mut tools, &mut self.tools);
        let ghost given = tools@;
        let ghost keep = |e: (Seq<char>, T)| is_named(names@, e.0);
        let mut kept: Vec<(String, T)> = Vec::new();
        assert(kept@.map_values(|e: (String, T)| (e.0@, e.1)) == before.take(0).filter(keep)) by {
            reveal(Seq::filter);
        }
        for entry in iter: tools
            invariant
                iter.seq() == given,
                before == given.map_values(|e: (String, T)| (e.0@, e.1)),
                keep == (|e: (Seq<char>, T)| is_named(names@, e.0)),
                kept@.map_values(|e: (String, T)| (e.0@, e.1)) == before.take(
                    iter.index() as int,
                ).filter(keep),
        {
            proof {
                crate::lists::lemma_filter_step(before, iter.index() as int, keep);
            }
            if one_is(names, entry.0.as_str()) {
                let ghost some = kept@;
                kept.push(entry);
                assert(kept@.map_values(|e: (String, T)| (e.0@, e.1)) == some.map_values(
                    |e: (String, T)| (e.0@, e.1),
                ).push((entry.0@, entry.1)));
            }
        }
        assert(before.take(before.len() as int) == before);
        proof {
            lemma_retain(before, names@);
        }
        self.tools = kept;
    }
}

impl<T> Default for ToolRegistry<T> {
    /// The registry without tools.
    fn default() -> (registry: ToolRegistry<T>)
        ensures
            registry@ == Map::<Seq<char>, T>::empty(),
    {
        ToolRegistry::new()
    }
}

/// Whether a text is one of the names.
fn names_hold(names: &[String], name: &str) -> (hit: bool)
    ensures
        hit == crate::text::texts(names@).contains(name@),
{
    let ghost all = crate::text::texts(names@);
    let mut i: usize = 0;
    while i < names.len()
        invariant
            i <= names@.len(),
            all == crate::text::texts(names@),
            forall|k: int| 0 <= k < i ==> #[trigger] all[k] != name@,
        decreases names.len() - i,
    {
        if same_text(names[i].as_str(), name) {
            assert(all[i as int] == name@);
            return true;
        }
        i = i + 1;
    }
    false
}

/// Whether a text is one of the names.
fn one_is(names: &[&str], name: &str) -> (hit: bool)
    ensures
        hit == is_named(names@, name@),
{
    let mut i: usize = 0;
    while i < names.len()
        invariant
            i <= names@.len(),
            forall|k: int| 0 <= k < i ==> (#[trigger] names@[k])@ != name@,
        decreases names.len() - i,
    {
        if same_text(names[i], name) {
            assert(names@[i as int]@ == name@);
            return true;
        }
        i = i + 1;
    }
    false
}

/// Setting the entry of a name, or adding one, inserts the tool.
proof fn lemma_insert<T>(
    before: Seq<(Seq<char>, T)>,
    after: Seq<(Seq<char>, T)>,
    name: Seq<char>,
    tool: T,
    i: int,
)
    requires
        names_differ(before),
        0 <= i < after.len(),
        after.len() == (if i < before.len() {
            before.len()
        } else {
            before.len() + 1
        }),
        after[i].0 == name,
        after[i].1 == tool,
        i < before.len() ==> before[i].0 == name,
        i == before.len() ==> forall|k: int|
            0 <= k < before.len() ==> (#[trigger] before[k]).0 != name,
        i <= before.len(),
        forall|k: int| 0 <= k < before.len() && k != i ==> #[trigger] after[k] == before[k],
    ensures
        names_differ(after),
        by_name(after) == by_name(before).insert(name, tool),
{
    assert forall|a: int, b: int| 0 <= a < b < after.len() implies (#[trigger] after[a]).0 != (
    #[trigger] after[b]).0 by {
        if a != i {
            assert(after[a] == before[a]);
        }
        if b != i {
            assert(after[b] == before[b]);
        }
        if a == i {
            if i < before.len() {
                assert(before[a].0 != before[b].0);
            }
        } else if b == i {
            if i < before.len() {
                assert(before[a].0 != before[b].0);
            }
        } else {
            assert(before[a].0 != before[b].0);
        }
    }
    let x = by_name(after);
    let y = by_name(before).insert(name, tool);
    assert forall|n: Seq<char>| x.contains_key(n) == y.contains_key(n) by {
        if x.contains_key(n) {
            let k = choose|k: int| is_at(after, n, k);
            assert(is_at(after, n, k));
            if k != i {
                assert(is_at(before, n, k));
            }
        }
        if y.contains_key(n) {
            if n == name {
                assert(is_at(after, n, i));
            } else {
                let k = choose|k: int| is_at(before, n, k);
                assert(is_at(before, n, k));
                assert(k != i);
                assert(is_at(after, n, k));
            }
        }
    }
    assert forall|n: Seq<char>| x.contains_key(n) implies x[n] == y[n] by {
        let k = choose|k: int| is_at(after, n, k);
        assert(is_at(after, n, k));
        an_entry_is_the_tool_of_its_name(after, k);
        if k != i {
            assert(after[k] == before[k]);
            an_entry_is_the_tool_of_its_name(before, k);
            assert(n != name);
        }
    }
    assert(x =~= y);
}

/// Keeping the entries with one of the names restricts the tools to those names.
proof fn lemma_retain<T>(before: Seq<(Seq<char>, T)>, names: Seq<&str>)
    requires
        names_differ(before),
    ensures
        names_differ(before.filter(|e: (Seq<char>, T)| is_named(names, e.0))),
        by_name(before.filter(|e: (Seq<char>, T)| is_named(names, e.0))) == by_name(before).restrict(
            Set::new(|name: Seq<char>| is_named(names, name)),
        ),
    decreases before.len(),
{
    let keep = |e: (Seq<char>, T)| is_named(names, e.0);
    let after = before.filter(keep);
    lemma_filter_differs(before, keep);
    let x = by_name(after);
    let y = by_name(before).restrict(Set::new(|name: Seq<char>| is_named(names, name)));
    broadcast use vstd::seq_lib::group_filter_ensures;

    assert forall|n: Seq<char>| #[trigger] x.contains_key(n) implies y.contains_key(n) && x[n]
        == y[n] by {
        let k = choose|k: int| is_at(after, n, k);
        assert(is_at(after, n, k));
        an_entry_is_the_tool_of_its_name(after, k);
        assert(keep(after[k]));
        assert(after.contains(after[k]));
        before.lemma_filter_contains_rev(keep, after[k]);
        let b = choose|b: int| 0 <= b < before.len() && before[b] == after[k];
        an_entry_is_the_tool_of_its_name(before, b);
    }
    assert forall|n: Seq<char>| #[trigger] y.contains_key(n) implies x.contains_key(n) by {
        let b = choose|b: int| is_at(before, n, b);
        assert(is_at(before, n, b));
        assert(keep(before[b]));
        assert(after.contains(before[b]));
        let k = choose|k: int| 0 <= k < after.len() && after[k] == before[b];
        assert(is_at(after, n, k));
    }
    assert(x =~= y);
}

/// A filter brings no name twice.
proof fn lemma_filter_differs<T>(before: Seq<(Seq<char>, T)>, keep: spec_fn((Seq<char>, T)) -> bool)
    requires
        names_differ(before),
    ensures
        names_differ(before.filter(keep)),
    decreases before.len(),
{
    reveal(Seq::filter);
    if before.len() > 0 {
        let rest = before.drop_last();
        assert forall|a: int, b: int| 0 <= a < b < rest.len() implies (#[trigger] rest[a]).0 != (
        #[trigger] rest[b]).0 by {
            assert(rest[a] == before[a] && rest[b] == before[b]);
        }
        lemma_filter_differs(rest, keep);
        let kept = rest.filter(keep);
        if keep(before.last()) {
            let after = before.filter(keep);
            assert forall|a: int, b: int| 0 <= a < b < after.len() implies (
            #[trigger] after[a]).0 != (#[trigger] after[b]).0 by {
                if b < kept.len() {
                    assert(after[a] == kept[a] && after[b] == kept[b]);
                } else {
                    assert(after[a] == kept[a]);
                    assert(kept.contains(kept[a]));
                    rest.lemma_filter_contains_rev(keep, kept[a]);
                    let r = choose|r: int| 0 <= r < rest.len() && rest[r] == kept[a];
                    assert(before[r] == kept[a]);
                    assert(before[r].0 != before[before.len() - 1].0);
                }
            }
        }
    }
}

/// Entries give their tools one by one, in their order.
pub proof fn every_entry_gives_its_tool<T>(entries: Seq<(Seq<char>, T)>, i: int)
    requires
        0 <= i < entries.len(),
    ensures
        tools_of(entries).len() == entries.len(),
        tools_of(entries)[i] == entries[i].1,
{
}

/// A name is one of some names exactly if it is one of them in full, wherever it stands.
pub proof fn a_name_is_looked_for_among_all(a: Seq<&str>, b: Seq<&str>, name: Seq<char>)
    ensures
        is_named(a + b, name) == (is_named(a, name) || is_named(b, name)),
        a.len() == 0 ==> !is_named(a, name),
        a.len() == 1 ==> is_named(a, name) == (a[0]@ == name),
{
    let all = a + b;
    if is_named(a, name) {
        let i = choose|i: int| 0 <= i < a.len() && (#[trigger] a[i])@ == name;
        assert(all[i]@ == name);
    }
    if is_named(b, name) {
        let i = choose|i: int| 0 <= i < b.len() && (#[trigger] b[i])@ == name;
        assert(all[a.len() + i]@ == name);
    }
    if is_named(all, name) {
        let i = choose|i: int| 0 <= i < all.len() && (#[trigger] all[i])@ == name;
        if i < a.len() {
            assert(a[i]@ == name);
        } else {
            assert(b[i - a.len()]@ == name);
        }
    }
    if a.len() == 1 && a[0]@ == name {
        assert(is_named(a, name));
    }
}

/// A name has a tool exactly if an entry has it.
pub proof fn a_name_without_an_entry_has_no_tool<T>(entries: Seq<(Seq<char>, T)>, name: Seq<char>)
    ensures
        by_name(entries).contains_key(name) <==> exists|i: int|
            0 <= i < entries.len() && (#[trigger] entries[i]).0 == name,
{
    if exists|i: int| 0 <= i < entries.len() && (#[trigger] entries[i]).0 == name {
        let i = choose|i: int| 0 <= i < entries.len() && (#[trigger] entries[i]).0 == name;
        assert(is_at(entries, name, i));
    }
    if by_name(entries).contains_key(name) {
        let i = choose|i: int| is_at(entries, name, i);
        assert(entries[i].0 == name);
    }
}

} // verus!
