//! The interner as mathematics: a table of the distinct texts interned so
//! far, each standing at the place that is its symbol's number.

use vstd::prelude::*;

verus! {

/// The table after `text` has been interned: a text that is already there
/// changes nothing, a new one goes to the end.
pub open spec fn interned(table: Seq<Seq<char>>, text: Seq<char>) -> Seq<Seq<char>> {
    if table.contains(text) {
        table
    } else {
        table.push(text)
    }
}

/// The number of the symbol that interning `text` returns: the place where
/// the text stands, or the next free place for a new text.
pub open spec fn id_of(table: Seq<Seq<char>>, text: Seq<char>) -> int {
    if table.contains(text) {
        table.index_of(text)
    } else {
        table.len() as int
    }
}

/// The table after each of `texts` has been interned in turn.
pub open spec fn interned_all(table: Seq<Seq<char>>, texts: Seq<Seq<char>>) -> Seq<Seq<char>>
    decreases texts.len(),
{
    if texts.len() == 0 {
        table
    } else {
        interned(interned_all(table, texts.drop_last()), texts.last())
    }
}

/// A text that stands at place `at` of a table without repetitions has the
/// number `at`, and interning it changes nothing.
pub proof fn lemma_known(table: Seq<Seq<char>>, text: Seq<char>, at: int)
    requires
        table.no_duplicates(),
        0 <= at < table.len(),
        table[at] == text,
    ensures
        id_of(table, text) == at,
        interned(table, text) == table,
{
}

/// Interning keeps a table free of repetitions.
pub proof fn lemma_interned_distinct(table: Seq<Seq<char>>, text: Seq<char>)
    requires
        table.no_duplicates(),
    ensures
        interned(table, text).no_duplicates(),
{
}

/// Idempotence: interning a text a second time returns the number that the
/// first time returned, and adds nothing to the table.
pub proof fn lemma_intern_twice(table: Seq<Seq<char>>, text: Seq<char>)
    requires
        table.no_duplicates(),
    ensures
        id_of(interned(table, text), text) == id_of(table, text),
        interned(interned(table, text), text) == interned(table, text),
{
    let once = interned(table, text);
    lemma_interned_distinct(table, text);
    lemma_known(once, text, id_of(table, text));
}

/// Round trip: after a text has been interned, the table holds exactly that
/// text at the number that interning returned.
pub proof fn lemma_round_trip(table: Seq<Seq<char>>, text: Seq<char>)
    ensures
        0 <= id_of(table, text) < interned(table, text).len(),
        interned(table, text)[id_of(table, text)] == text,
{
}

/// Sequential assignment: a text that is new to a table of `n` texts gets
/// the number `n`, and the table then holds `n + 1` texts.
pub proof fn lemma_next_number(table: Seq<Seq<char>>, text: Seq<char>)
    requires
        !table.contains(text),
    ensures
        id_of(table, text) == table.len(),
        interned(table, text).len() == table.len() + 1,
{
}

/// Sequential assignment: when texts that differ from each other are
/// interned in order into an empty table, the table becomes that list of
/// texts, and the text at place `k` of the list gets the number `k`.
pub proof fn lemma_numbers_in_order(texts: Seq<Seq<char>>, k: int)
    requires
        texts.no_duplicates(),
        0 <= k < texts.len(),
    ensures
        interned_all(Seq::empty(), texts) == texts,
        interned_all(Seq::empty(), texts.take(k)) == texts.take(k),
        id_of(interned_all(Seq::empty(), texts.take(k)), texts[k]) == k,
{
    lemma_interned_all_distinct(texts);
    lemma_interned_all_distinct(texts.take(k));
}

/// Texts that differ from each other, interned in order into an empty
/// table, make the table that lists them in that order.
pub proof fn lemma_interned_all_distinct(texts: Seq<Seq<char>>)
    requires
        texts.no_duplicates(),
    ensures
        interned_all(Seq::empty(), texts) == texts,
    decreases texts.len(),
{
    if texts.len() > 0 {
        lemma_interned_all_distinct(texts.drop_last());
        assert(texts.drop_last().push(texts.last()) =~= texts);
    }
}

/// Sequential assignment, whatever is repeated: after any run of interning
/// into an empty table, the table lists each text that came once, in the
/// order of first arrival, so a text that is new then gets the number of
/// distinct texts that came before it.
pub proof fn lemma_counts_distinct(texts: Seq<Seq<char>>, next: Seq<char>)
    requires
        !texts.contains(next),
    ensures
        interned_all(Seq::empty(), texts).no_duplicates(),
        interned_all(Seq::empty(), texts).to_set() == texts.to_set(),
        id_of(interned_all(Seq::empty(), texts), next) == texts.to_set().len(),
{
    lemma_interned_all_set(texts);
    let table = interned_all(Seq::empty(), texts);
    table.unique_seq_to_set();
    assert(!table.contains(next)) by {
        if table.contains(next) {
            assert(table.to_set().contains(next));
            assert(texts.to_set().contains(next));
        }
    }
}

/// After any run of interning into an empty table, the table holds the texts
/// that came and no others, each once.
pub proof fn lemma_interned_all_set(texts: Seq<Seq<char>>)
    ensures
        interned_all(Seq::empty(), texts).no_duplicates(),
        interned_all(Seq::empty(), texts).to_set() == texts.to_set(),
    decreases texts.len(),
{
    let table = interned_all(Seq::empty(), texts);
    if texts.len() == 0 {
        assert(table.to_set() =~= texts.to_set());
    } else {
        let front = texts.drop_last();
        let before = interned_all(Seq::empty(), front);
        lemma_interned_all_set(front);
        lemma_interned_distinct(before, texts.last());
        assert(front.push(texts.last()) =~= texts);
        front.lemma_push_to_set_commute(texts.last());
        before.lemma_push_to_set_commute(texts.last());
        if before.contains(texts.last()) {
            assert(before.to_set().contains(texts.last()));
            assert(before.to_set().insert(texts.last()) =~= before.to_set());
        }
        assert(table.to_set() =~= texts.to_set());
    }
}

/// Stability: interning never moves or changes a text that is in the table.
/// Every number issued before stands for the same text afterwards.
pub proof fn lemma_intern_keeps(table: Seq<Seq<char>>, text: Seq<char>, at: int)
    requires
        0 <= at < table.len(),
    ensures
        at < interned(table, text).len(),
        interned(table, text)[at] == table[at],
{
}

/// Stability of numbers: a text that is in the table keeps its number when
/// another text is interned.
pub proof fn lemma_intern_keeps_id(table: Seq<Seq<char>>, text: Seq<char>, other: Seq<char>)
    requires
        table.no_duplicates(),
        table.contains(text),
    ensures
        id_of(interned(table, other), text) == id_of(table, text),
{
    lemma_interned_distinct(table, other);
    lemma_known(interned(table, other), text, id_of(table, text));
}

/// Distinctness: two texts that differ get numbers that differ, whether
/// they are interned one after the other or are looked at in one table.
pub proof fn lemma_distinct_ids(table: Seq<Seq<char>>, a: Seq<char>, b: Seq<char>)
    requires
        table.no_duplicates(),
        a != b,
    ensures
        id_of(table, a) != id_of(interned(table, a), b),
        table.contains(a) || table.contains(b) ==> id_of(table, a) != id_of(table, b),
{
    lemma_round_trip(table, a);
    lemma_round_trip(interned(table, a), b);
    lemma_intern_keeps(interned(table, a), b, id_of(table, a));
}

} // verus!
