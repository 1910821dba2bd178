//! The capture groups of one match.
//!
//! A match yields one group for the whole of what matched, at index 0, and one for each
//! capturing group of the pattern, in the order of their opening brackets. A group has a text
//! where it took part in the match, and a name where the pattern gave it one.

use vstd::prelude::*;

verus! {

/// One capture group of a match.
#[derive(Clone, Debug, PartialEq, Eq)]
pub struct Group {
    /// The name that the pattern gave the group, if any.
    pub name: Option<String>,
    /// What the group captured; `None` where it took no part in the match.
    pub text: Option<String>,
}

/// A capture group as specifications see it: its name and its text as sequences of characters.
pub struct GroupView {
    pub name: Option<Seq<char>>,
    pub text: Option<Seq<char>>,
}

impl DeepView for Group {
    type V = GroupView;

    open spec fn deep_view(&self) -> GroupView {
        GroupView { name: self.name.deep_view(), text: self.text.deep_view() }
    }
}

impl View for Group {
    type V = GroupView;

    open spec fn view(&self) -> GroupView {
        self.deep_view()
    }
}

impl Group {
    /// A group of the given name and text, either of which may be wanting.
    pub fn new(name: Option<&str>, text: Option<&str>) -> (group: Group)
        ensures
            group@ == (GroupView { name: name.deep_view(), text: text.deep_view() }),
    {
        Group {
            name: match name {
                Some(n) => Some(n.to_owned()),
                None => None,
            },
            text: match text {
                Some(t) => Some(t.to_owned()),
                None => None,
            },
        }
    }
}

/// The text of the group at index `i`; `None` where there is no such group or it took no part.
pub open spec fn text_at(groups: Seq<GroupView>, i: int) -> Option<Seq<char>> {
    if 0 <= i < groups.len() {
        groups[i].text
    } else {
        None
    }
}

/// The index of the first group that bears `name`.
pub open spec fn index_of_name(groups: Seq<GroupView>, name: Seq<char>) -> Option<int>
    decreases groups.len(),
{
    if groups.len() == 0 {
        None
    } else {
        match index_of_name(groups.drop_last(), name) {
            Some(i) => Some(i),
            None => if groups.last().name == Some(name) {
                Some(groups.len() - 1)
            } else {
                None
            },
        }
    }
}

/// The texts of the groups after the whole-match group, in the order of the groups.
pub open spec fn positional_texts(groups: Seq<GroupView>) -> Seq<Option<Seq<char>>> {
    Seq::new(
        if groups.len() > 0 {
            (groups.len() - 1) as nat
        } else {
            0
        },
        |k: int| groups[k + 1].text,
    )
}

/// `index_of_name` finds a group of that name with none of that name before it, and finds none
/// only where no group bears the name.
pub proof fn lemma_index_of_name(groups: Seq<GroupView>, name: Seq<char>)
    ensures
        match index_of_name(groups, name) {
            Some(i) => {
                &&& 0 <= i < groups.len()
                &&& groups[i].name == Some(name)
                &&& forall|j: int| 0 <= j < i ==> (#[trigger] groups[j]).name != Some(name)
            },
            None => forall|j: int| 0 <= j < groups.len() ==> (#[trigger] groups[j]).name != Some(name),
        },
    decreases groups.len(),
{
    if groups.len() > 0 {
        let front = groups.drop_last();
        lemma_index_of_name(front, name);
        assert forall|j: int| 0 <= j < front.len() implies front[j] == groups[j] by {}
        match index_of_name(front, name) {
            Some(i) => {
                assert(front[i] == groups[i]);
                assert forall|j: int| 0 <= j < i implies (#[trigger] groups[j]).name != Some(
                    name,
                ) by {
                    assert(front[j] == groups[j]);
                }
            },
            None => {
                assert forall|j: int| 0 <= j < front.len() implies (#[trigger] groups[j]).name
                    != Some(name) by {
                    assert(front[j] == groups[j]);
                }
            },
        }
    }
}

/// A name found among the first `n` groups is found at the same index among all of them.
pub proof fn lemma_index_of_name_prefix(groups: Seq<GroupView>, name: Seq<char>, n: int)
    requires
        0 <= n <= groups.len(),
        index_of_name(groups.take(n), name) is Some,
    ensures
        index_of_name(groups, name) == index_of_name(groups.take(n), name),
    decreases groups.len() - n,
{
    if n < groups.len() {
        assert(groups.take(n + 1).drop_last() =~= groups.take(n));
        lemma_index_of_name_prefix(groups, name, n + 1);
    } else {
        assert(groups.take(n) =~= groups);
    }
}

/// The capture groups of one match, the whole-match group first.
#[derive(Clone, Debug, PartialEq, Eq)]
pub struct CaptureSet {
    groups: Vec<Group>,
}

impl View for CaptureSet {
    type V = Seq<GroupView>;

    closed spec fn view(&self) -> Seq<GroupView> {
        self.groups.deep_view()
    }
}

impl CaptureSet {
    /// A capture set of the given groups, in their order.
    pub fn new(groups: Vec<Group>) -> (set: CaptureSet)
        ensures
            set@ == groups.deep_view(),
    {
        CaptureSet { groups }
    }

    /// The number of groups, the whole-match group included.
    pub fn len(&self) -> (n: usize)
        ensures
            n == self@.len(),
    {
        self.groups.len()
    }

    /// The text of the group at index `i`.
    pub fn get_by_index(&self, i: usize) -> (text: Option<&String>)
        ensures
            text.deep_view() == text_at(self@, i as int),
    {
        if i < self.groups.len() {
            self.groups[i].text.as_ref()
        } else {
            None
        }
    }

    /// The index of the first group that bears `name`.
    pub fn index_of(&self, name: &str) -> (index: Option<usize>)
        ensures
            match index {
                Some(i) => index_of_name(self@, name@) == Some(i as int),
                None => index_of_name(self@, name@) is None,
            },
    {
        let wanted = name.to_owned();
        let mut i: usize = 0;
        while i < self.groups.len()
            invariant
                0 <= i <= self.groups.len(),
                wanted@ == name@,
                index_of_name(self@.take(i as int), name@) is None,
            decreases self.groups.len() - i,
        {
            proof {
                assert(self@.take(i + 1).drop_last() =~= self@.take(i as int));
            }
            let found = match &self.groups[i].name {
                Some(n) => *n == wanted,
                None => false,
            };
            if found {
                proof {
                    lemma_index_of_name_prefix(self@, name@, i + 1);
                }
                return Some(i);
            }
            i = i + 1;
        }
        proof {
            assert(self@.take(i as int) =~= self@);
        }
        None
    }

    /// The text of the first group that bears `name`; `None` where no group bears it, and
    /// where that group took no part in the match.
    pub fn get_by_name(&self, name: &str) -> (text: Option<&String>)
        ensures
            text.deep_view() == match index_of_name(self@, name@) {
                Some(i) => text_at(self@, i),
                None => None,
            },
    {
        match self.index_of(name) {
            Some(i) => self.get_by_index(i),
            None => None,
        }
    }
}

} // verus!
