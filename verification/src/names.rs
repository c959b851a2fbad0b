//! Sets of names: the declared variables, the defined and the referenced labels.
use crate::token::same_text;
use vstd::prelude::*;

verus! {

/// The first name of `names`, from index `from` on, that `among` lacks.
pub open spec fn first_missing(names: Seq<Seq<char>>, among: Seq<Seq<char>>, from: int) -> Option<
    Seq<char>,
>
    decreases names.len() - from,
{
    if from < 0 || from >= names.len() {
        None
    } else if !among.contains(names[from]) {
        Some(names[from])
    } else {
        first_missing(names, among, from + 1)
    }
}

/// `names` with `name` added behind the others, unless it is there already.
pub open spec fn with_name(names: Seq<Seq<char>>, name: Seq<char>) -> Seq<Seq<char>> {
    if names.contains(name) {
        names
    } else {
        names.push(name)
    }
}

/// Adding a name to names that are all different leaves them all different.
pub proof fn lemma_with_name_distinct(names: Seq<Seq<char>>, name: Seq<char>)
    requires
        names.no_duplicates(),
    ensures
        with_name(names, name).no_duplicates(),
        forall|n: Seq<char>| names.contains(n) ==> with_name(names, name).contains(n),
        with_name(names, name).contains(name),
{
    if !names.contains(name) {
        let longer = names.push(name);
        assert(longer[names.len() as int] == name);
        assert forall|n: Seq<char>| names.contains(n) implies longer.contains(n) by {
            let i: int = choose|i: int| 0 <= i < names.len() && names[i] == n;
            assert(longer[i] == n);
        }
    }
}

/// No name is missing exactly when every name is among the others.
pub proof fn lemma_first_missing(names: Seq<Seq<char>>, among: Seq<Seq<char>>, from: int)
    requires
        0 <= from <= names.len(),
    ensures
        first_missing(names, among, from) is None <==> forall|i: int|
            from <= i < names.len() ==> among.contains(#[trigger] names[i]),
        first_missing(names, among, from) matches Some(n) ==> names.contains(n) && !among.contains(
            n,
        ),
    decreases names.len() - from,
{
    if from < names.len() {
        if among.contains(names[from]) {
            lemma_first_missing(names, among, from + 1);
        }
    }
}

/// A set of names, kept in the order in which they were first inserted.
#[derive(Debug)]
pub struct NameSet {
    names: Vec<String>,
}

impl View for NameSet {
    type V = Seq<Seq<char>>;

    closed spec fn view(&self) -> Seq<Seq<char>> {
        Seq::new(self.names@.len(), |i: int| self.names@[i]@)
    }
}

impl NameSet {
    /// The empty set.
    pub fn new() -> (set: Self)
        ensures
            set@ == Seq::<Seq<char>>::empty(),
            set@.no_duplicates(),
    {
        let set = NameSet { names: Vec::new() };
        assert(set@ =~= Seq::<Seq<char>>::empty());
        set
    }

    /// Whether `name` is in the set.
    pub fn contains(&self, name: &str) -> (found: bool)
        ensures
            found == self@.contains(name@),
    {
        let mut i: usize = 0;
        while i < self.names.len()
            invariant
                i <= self.names@.len(),
                forall|j: int| 0 <= j < i ==> self@[j] != name@,
            decreases self.names@.len() - i,
        {
            if same_text(self.names[i].as_str(), name) {
                assert(self@[i as int] == name@);
                return true;
            }
            i = i + 1;
        }
        false
    }

    /// Adds `name` unless the set holds it already; says whether it was added.
    pub fn insert(&mut self, name: String) -> (added: bool)
        ensures
            added == !old(self)@.contains(name@),
            final(self)@ == with_name(old(self)@, name@),
            old(self)@.no_duplicates() ==> final(self)@.no_duplicates(),
    {
        if self.contains(name.as_str()) {
            false
        } else {
            let ghost before = self@;
            let ghost text = name@;
            self.names.push(name);
            assert(self@ =~= before.push(text));
            true
        }
    }

    /// The first name, in order of insertion, that `among` lacks.
    pub fn first_missing_from(&self, among: &NameSet) -> (missing: Option<String>)
        ensures
            match first_missing(self@, among@, 0) {
                Some(n) => missing matches Some(m) && m@ == n,
                None => missing is None,
            },
    {
        let mut i: usize = 0;
        while i < self.names.len()
            invariant
                i <= self.names@.len(),
                first_missing(self@, among@, 0) == first_missing(self@, among@, i as int),
            decreases self.names@.len() - i,
        {
            if !among.contains(self.names[i].as_str()) {
                return Some(self.names[i].clone());
            }
            i = i + 1;
        }
        None
    }
}

} // verus!
