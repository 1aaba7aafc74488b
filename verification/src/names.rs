use vstd::prelude::*;

verus! {

/// The outcome of looking a thing up by the words a player typed.
#[derive(Debug, PartialEq, Eq)]
pub enum NameResolves {
    /// the positions of every candidate whose names hold all the words, in increasing order
    Results(Vec<usize>),
    /// no candidate holds all the words
    Zero,
    /// no word was given
    EmptyQuery,
}

/// Every word of `words` is one of the names in `entry`.
pub open spec fn has_all(entry: Seq<Seq<char>>, words: Seq<Seq<char>>) -> bool {
    forall|j: int| 0 <= j < words.len() ==> entry.contains(#[trigger] words[j])
}

/// The positions below `n` of the entries of `context` that hold all of `words`, in increasing order.
pub open spec fn matching(context: Seq<Seq<Seq<char>>>, words: Seq<Seq<char>>, n: nat) -> Seq<usize>
    decreases n,
{
    if n == 0 {
        Seq::empty()
    } else {
        let before = matching(context, words, (n - 1) as nat);
        if has_all(context[n - 1], words) {
            before.push((n - 1) as usize)
        } else {
            before
        }
    }
}

/// The positions that `matching` gives are below `n`, in increasing order, and are exactly
/// the positions below `n` whose entries hold all the words.
pub proof fn lemma_matching(context: Seq<Seq<Seq<char>>>, words: Seq<Seq<char>>, n: nat)
    requires
        n <= context.len(),
        n <= usize::MAX + 1,
    ensures
        forall|j: int|
            0 <= j < matching(context, words, n).len() ==> #[trigger] matching(context, words, n)[j]
                < n,
        forall|j: int, k: int|
            0 <= j < k < matching(context, words, n).len() ==> matching(context, words, n)[j]
                < matching(context, words, n)[k],
        forall|i: int|
            0 <= i < n ==> (matching(context, words, n).contains(i as usize) <==> has_all(
                #[trigger] context[i],
                words,
            )),
    decreases n,
{
    if n > 0 {
        lemma_matching(context, words, (n - 1) as nat);
        let before = matching(context, words, (n - 1) as nat);
        let m = matching(context, words, n);
        assert forall|i: int| 0 <= i < n implies (m.contains(i as usize) <==> has_all(
            #[trigger] context[i],
            words,
        )) by {
            if i < n - 1 {
                if m.contains(i as usize) {
                    let j = choose|j: int| 0 <= j < m.len() && m[j] == i as usize;
                    if j < before.len() {
                        assert(before[j] == i as usize);
                        assert(before.contains(i as usize));
                    }
                }
                if before.contains(i as usize) {
                    let j = choose|j: int| 0 <= j < before.len() && before[j] == i as usize;
                    assert(m[j] == i as usize);
                }
            } else {
                if has_all(context[i], words) {
                    assert(m[before.len() as int] == i as usize);
                }
                if m.contains(i as usize) {
                    let j = choose|j: int| 0 <= j < m.len() && m[j] == i as usize;
                    if j < before.len() {
                        assert(before[j] < n - 1);
                    }
                }
            }
        }
    }
}

/// Whether `name` is among `entry`.
fn holds_word(entry: &Vec<String>, name: &String) -> (r: bool)
    ensures
        r == entry.deep_view().contains(name@),
{
    let mut i: usize = 0;
    while i < entry.len()
        invariant
            i <= entry.len(),
            forall|k: int| 0 <= k < i ==> entry.deep_view()[k] != name@,
        decreases entry.len() - i,
    {
        if entry[i] == *name {
            assert(entry.deep_view()[i as int] == name@);
            return true;
        }
        i = i + 1;
    }
    false
}

/// Whether every word of `words` is among `entry`.
fn holds_all(entry: &Vec<String>, words: &Vec<String>) -> (r: bool)
    ensures
        r == has_all(entry.deep_view(), words.deep_view()),
{
    let mut j: usize = 0;
    while j < words.len()
        invariant
            j <= words.len(),
            forall|k: int| 0 <= k < j ==> entry.deep_view().contains(#[trigger] words.deep_view()[k]),
        decreases words.len() - j,
    {
        if !holds_word(entry, &words[j]) {
            assert(!entry.deep_view().contains(words.deep_view()[j as int]));
            return false;
        }
        j = j + 1;
    }
    true
}

/// Looks up the entries of `context` whose names hold every word of `name`.
pub fn get_name(context: &Vec<Vec<String>>, name: Vec<String>) -> (r: NameResolves)
    ensures
        name@.len() == 0 ==> r is EmptyQuery,
        name@.len() > 0 && matching(context.deep_view(), name.deep_view(), context@.len()).len() == 0
            ==> r is Zero,
        name@.len() > 0 && matching(context.deep_view(), name.deep_view(), context@.len()).len() > 0
            ==> (r matches NameResolves::Results(v) && v@ == matching(
            context.deep_view(),
            name.deep_view(),
            context@.len(),
        )),
{
    if name.len() == 0 {
        return NameResolves::EmptyQuery;
    }
    let mut found: Vec<usize> = Vec::new();
    let mut i: usize = 0;
    while i < context.len()
        invariant
            i <= context.len(),
            found@ == matching(context.deep_view(), name.deep_view(), i as nat),
        decreases context.len() - i,
    {
        let hit = holds_all(&context[i], &name);
        assert(context.deep_view()[i as int] == context[i as int].deep_view());
        if hit {
            found.push(i);
        }
        i = i + 1;
    }
    if found.len() > 0 {
        NameResolves::Results(found)
    } else {
        NameResolves::Zero
    }
}

} // verus!
