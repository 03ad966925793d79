//! The interner: a table from symbols to strings, the strings kept in an
//! arena, and an index by content hash that finds a string already there.

use crate::arena::{Arena, ArenaView, Span};
use crate::interner::Interner;
use crate::model::{id_of, interned};
use crate::sym::Sym;
use crate::text::{hash_of, spec_hash, str_eq};
use std::collections::HashMap;
use vstd::prelude::*;
use vstd::utf8::*;

verus! {

/// One row of the table: where the string lies, and the row before this one
/// whose string has the same hash, if there is one.
#[derive(Clone, Copy, Debug)]
struct Entry {
    span: Span,
    prev: Option<u32>,
}

/// Whether `found` is the last row before `below` whose text has the hash
/// `hash`, or `None` where no row before `below` has it.
spec fn is_latest(table: Seq<Seq<char>>, hash: u64, below: int, found: Option<u32>) -> bool {
    match found {
        Some(at) => {
            &&& at < below
            &&& spec_hash(table[at as int]) == hash
            &&& forall|k: int| at < k < below ==> spec_hash(#[trigger] table[k]) != hash
        },
        None => forall|k: int| 0 <= k < below ==> spec_hash(#[trigger] table[k]) != hash,
    }
}

/// String interner. Every distinct string is stored once and named by a
/// [`Sym`]; the symbols count up from 0 in the order in which the strings
/// first came.
#[derive(Debug)]
pub struct Lexicon {
    map: HashMap<u64, u32>,
    vec: Vec<Entry>,
    arena: Arena,
}

impl View for Lexicon {
    type V = Seq<Seq<char>>;

    /// The interned texts: the text of symbol `n` stands at place `n`.
    closed spec fn view(&self) -> Seq<Seq<char>> {
        Seq::new(self.vec.len() as nat, |i: int| self.arena@.text(self.vec[i].span))
    }
}

impl Lexicon {
    /// A capacity to start with where nothing is known about the strings
    /// to come.
    pub const BASE_CAPACITY: usize = 100;

    /// The first row with the hash `hash`, counted from the newest.
    spec fn head(&self, hash: u64) -> Option<u32> {
        if self.map@.contains_key(hash) {
            Some(self.map@[hash])
        } else {
            None
        }
    }

    /// Whether the interner is in order: the rows lie in the arena, no text
    /// stands twice, and the index leads to every row. Every interner that
    /// this module hands out is in order, and every method keeps it so.
    pub closed spec fn wf(&self) -> bool {
        &&& self.arena.wf()
        &&& self.vec.len() <= u32::MAX + 1
        &&& forall|i: int| 0 <= i < self.vec.len() ==> self.arena@.holds(#[trigger] self.vec[i].span)
        &&& self@.no_duplicates()
        &&& forall|i: int|
            0 <= i < self.vec.len() ==> is_latest(
                self@,
                spec_hash(self@[i]),
                i,
                #[trigger] self.vec[i].prev,
            )
        &&& forall|hash: u64|
            is_latest(self@, hash, self.vec.len() as int, #[trigger] self.head(hash))
    }

    /// The arena that holds the strings.
    pub closed spec fn spec_arena(&self) -> &Arena {
        &self.arena
    }

    /// Whether `text` can be interned: it is interned already, or a symbol
    /// is left for it and the arena can store its bytes.
    pub open spec fn admits(&self, text: Seq<char>) -> bool {
        ||| self@.contains(text)
        ||| {
            &&& self@.len() <= u32::MAX
            &&& self.spec_arena()@.admits(text)
        }
    }

    /// What holds of every interner that is in order: no text stands twice,
    /// every row has a symbol, and the arena is in order.
    pub proof fn lemma_wf(&self)
        requires
            self.wf(),
        ensures
            self@.no_duplicates(),
            self@.len() <= u32::MAX + 1,
            self.spec_arena().wf(),
    {
    }

    /// An empty interner whose arena starts with the capacity `capacity`
    /// rounded up to a power of two.
    pub fn with_capacity(capacity: usize) -> (lexicon: Lexicon)
        requires
            capacity <= crate::power::MAX_CAPACITY,
        ensures
            lexicon.wf(),
            lexicon@ == Seq::<Seq<char>>::empty(),
            lexicon.spec_arena()@.regions == seq![Seq::<u8>::empty()],
            lexicon.spec_arena()@.capacity == crate::power::next_power_of_two(capacity as nat),
    {
        let lexicon = Lexicon {
            map: HashMap::new(),
            vec: Vec::new(),
            arena: Arena::with_capacity(capacity),
        };
        proof {
            assert(lexicon@ =~= Seq::<Seq<char>>::empty());
        }
        lexicon
    }

    /// The number of strings interned.
    pub fn len(&self) -> (len: usize)
        ensures
            len == self@.len(),
    {
        self.vec.len()
    }

    /// The arena that holds the strings.
    #[verifier::when_used_as_spec(spec_arena)]
    pub fn arena(&self) -> (arena: &Arena)
        ensures
            arena == self.spec_arena(),
    {
        &self.arena
    }

    /// Walks the rows with the hash `hash`, newest first, for the one that
    /// holds `string`.
    fn search(&self, hash: u64, string: &str) -> (found: Option<u32>)
        requires
            self.wf(),
            hash == spec_hash(string@),
        ensures
            match found {
                Some(id) => id < self@.len() && self@[id as int] == string@,
                None => !self@.contains(string@),
            },
    {
        let mut cur: Option<u32> = match self.map.get(&hash) {
            Some(id) => Some(*id),
            None => None,
        };
        let ghost mut below: int = self.vec.len() as int;
        assert(cur == self.head(hash));
        loop
            invariant
                self.wf(),
                hash == spec_hash(string@),
                0 <= below <= self.vec.len(),
                is_latest(self@, hash, below, cur),
                forall|k: int| below <= k < self.vec.len() ==> self@[k] != string@,
            decreases below,
        {
            match cur {
                None => {
                    return None;
                },
                Some(id) => {
                    let entry = &self.vec[id as usize];
                    if str_eq(self.arena.get(entry.span), string) {
                        return Some(id);
                    }
                    proof {
                        below = id as int;
                    }
                    cur = entry.prev;
                },
            }
        }
    }

    /// The symbol of `string`, if it has been interned.
    pub fn find(&self, string: &str) -> (found: Option<Sym>)
        requires
            self.wf(),
        ensures
            match found {
                Some(sym) => 0 <= sym@ < self@.len() && self@[sym@ as int] == string@,
                None => !self@.contains(string@),
            },
    {
        match self.search(hash_of(string), string) {
            Some(id) => Some(Sym::new(id)),
            None => None,
        }
    }

    /// Stores a string that is not interned yet, and gives it the next
    /// symbol.
    fn insert(&mut self, hash: u64, string: &str) -> (sym: Sym)
        requires
            old(self).wf(),
            hash == spec_hash(string@),
            !old(self)@.contains(string@),
            old(self).admits(string@),
        ensures
            final(self).wf(),
            final(self)@ == old(self)@.push(string@),
            sym@ == old(self)@.len(),
            final(self).spec_arena()@ == old(self).spec_arena()@.store(string@),
    {
        let ghost before = *self;
        let span = self.arena.store(string);
        let id = self.vec.len() as u32;
        let prev = self.map.insert(hash, id);
        self.vec.push(Entry { span, prev });
        proof {
            assert forall|i: int| 0 <= i < before.vec.len() implies self.arena@.holds(
                #[trigger] self.vec[i].span,
            ) && self.arena@.text(self.vec[i].span) == before@[i] by {
                before.arena@.lemma_store_keeps(string@, before.vec[i].span);
            }
            assert(self@ =~= before@.push(string@));
            assert(prev == before.head(hash));
            assert forall|h: u64| is_latest(
                self@,
                h,
                self.vec.len() as int,
                #[trigger] self.head(h),
            ) by {
                assert(is_latest(before@, h, before.vec.len() as int, before.head(h)));
            }
        }
        Sym::new(id)
    }

    /// Stores a string slice in the interner, returning the `Sym` item
    /// which can be used to retrieve the stored string. A string that is
    /// already there is not stored again: its symbol is returned and nothing
    /// changes.
    pub fn intern(&mut self, string: &str) -> (sym: Sym)
        requires
            old(self).wf(),
            old(self).admits(string@),
        ensures
            final(self).wf(),
            final(self)@ == interned(old(self)@, string@),
            sym@ == id_of(old(self)@, string@),
            sym@ < final(self)@.len(),
            final(self)@[sym@ as int] == string@,
            forall|i: int| 0 <= i < old(self)@.len() ==> final(self)@[i] == old(self)@[i],
            old(self)@.contains(string@) ==> *final(self) == *old(self),
            !old(self)@.contains(string@) ==> final(self).spec_arena()@ == old(
                self,
            ).spec_arena()@.store(string@),
    {
        let hash = hash_of(string);
        match self.search(hash, string) {
            Some(id) => Sym::new(id),
            None => self.insert(hash, string),
        }
    }

    /// Interns `string` as [`Lexicon::intern`] does, if it is there already
    /// or can be stored. Where neither holds, nothing changes and `None` is
    /// returned.
    pub fn try_intern(&mut self, string: &str) -> (sym: Option<Sym>)
        requires
            old(self).wf(),
        ensures
            final(self).wf(),
            sym is Some <==> old(self).admits(string@),
            sym matches Some(s) ==> {
                &&& final(self)@ == interned(old(self)@, string@)
                &&& s@ == id_of(old(self)@, string@)
                &&& s@ < final(self)@.len()
                &&& final(self)@[s@ as int] == string@
                &&& !old(self)@.contains(string@) ==> final(self).spec_arena()@ == old(
                    self,
                ).spec_arena()@.store(string@)
            },
            sym is None || old(self)@.contains(string@) ==> *final(self) == *old(self),
    {
        let hash = hash_of(string);
        match self.search(hash, string) {
            Some(id) => Some(Sym::new(id)),
            None => {
                if self.vec.len() <= u32::MAX as usize && self.arena.admits(string) {
                    Some(self.insert(hash, string))
                } else {
                    None
                }
            },
        }
    }

    /// The string that `sym` stands for. The symbol must have come from this
    /// interner.
    pub fn lookup(&self, sym: Sym) -> (string: &str)
        requires
            self.wf(),
            0 <= sym@ < self@.len(),
        ensures
            string@ == self@[sym@ as int],
    {
        self.arena.get(self.vec[sym.get() as usize].span)
    }

    /// The string that `sym` stands for, or `None` for a symbol that this
    /// interner has not issued.
    pub fn get(&self, sym: Sym) -> (string: Option<&str>)
        requires
            self.wf(),
        ensures
            match string {
                Some(s) => 0 <= sym@ < self@.len() && s@ == self@[sym@ as int],
                None => self@.len() <= sym@,
            },
    {
        if (sym.get() as usize) < self.vec.len() {
            Some(self.lookup(sym))
        } else {
            None
        }
    }
}

impl Interner for Lexicon {
    type Key = Sym;

    type Value = str;

    open spec fn ready(&self) -> bool {
        self.wf()
    }

    open spec fn binds(&self, key: &Sym, value: &str) -> bool {
        0 <= key@ < self@.len() && self@[key@ as int] == value@
    }

    open spec fn issued(&self, key: &Sym) -> bool {
        0 <= key@ < self@.len()
    }

    open spec fn admits(&self, value: &str) -> bool {
        Lexicon::admits(self, value@)
    }

    fn intern(&mut self, value: &str) -> (key: Sym) {
        Lexicon::intern(self, value)
    }

    fn lookup(&self, key: &Sym) -> (value: &str) {
        Lexicon::lookup(self, *key)
    }
}

impl core::ops::Index<Sym> for Lexicon {
    type Output = str;

    /// The string that `index` stands for, as [`Lexicon::lookup`] gives it.
    fn index(&self, index: Sym) -> (string: &str)
        ensures
            string@ == self@[index@ as int],
    {
        self.lookup(index)
    }
}

impl vstd::std_specs::core::IndexSpecImpl<Sym> for Lexicon {
    open spec fn index_req(&self, index: &Sym) -> bool {
        self.wf() && 0 <= index@ < self@.len()
    }
}

impl Clone for Lexicon {
    /// An interner of its own that holds the same strings under the same
    /// symbols.
    fn clone(&self) -> (copy: Lexicon)
        ensures
            copy@ == self@,
            copy.spec_arena()@ == self.spec_arena()@,
            self.wf() ==> copy.wf(),
    {
        let copy = Lexicon {
            map: self.map.clone(),
            vec: self.vec.clone(),
            arena: self.arena.clone(),
        };
        proof {
            assert(copy.vec@ =~= self.vec@);
            assert(copy@ =~= self@);
            assert forall|hash: u64| copy.head(hash) == self.head(hash) by {}
        }
        copy
    }
}

impl Default for Lexicon {
    /// An empty interner that has allocated nothing yet.
    fn default() -> (lexicon: Lexicon)
        ensures
            lexicon.wf(),
            lexicon@ == Seq::<Seq<char>>::empty(),
            lexicon.spec_arena()@ == ArenaView::empty(),
    {
        let lexicon = Lexicon { map: HashMap::new(), vec: Vec::new(), arena: Arena::default() };
        proof {
            assert(lexicon@ =~= Seq::<Seq<char>>::empty());
        }
        lexicon
    }
}

/// The letter at place `i` of the alphabet: `a` to `z` at the places 0 to 25,
/// `A` to `Z` at the places 26 to 51.
pub open spec fn letter(i: int) -> char {
    if i < 26 {
        ('a' as int + i) as char
    } else {
        ('A' as int + i - 26) as char
    }
}

/// The 52 letters in their order, each as a text of its own.
pub open spec fn alphabet() -> Seq<Seq<char>> {
    Seq::new(52, |i: int| seq![letter(i)])
}

/// No letter stands twice in the alphabet.
pub proof fn lemma_alphabet_distinct()
    ensures
        alphabet().no_duplicates(),
{
    assert forall|i: int, j: int| 0 <= i < 52 && 0 <= j < 52 && i != j implies alphabet()[i]
        != alphabet()[j] by {
        assert(alphabet()[i][0] == letter(i));
        assert(alphabet()[j][0] == letter(j));
    }
}

/// The arena after the first `n` letters have been stored one by one in an
/// arena that had allocated nothing.
pub open spec fn alphabet_arena(n: int) -> ArenaView {
    ArenaView::empty().store_all(alphabet().take(n))
}

/// How the arena grows under the alphabet: buffers of 0, 2, 4, 8 and 16
/// bytes fill up and are retired in turn, and the last 22 letters lie in a
/// buffer of 32.
pub proof fn lemma_alphabet_arena(n: int)
    requires
        0 <= n <= 52,
    ensures
        alphabet_arena(n).wf(),
        n == 0 ==> alphabet_arena(n).capacity == 0 && alphabet_arena(n).used() == 0
            && alphabet_arena(n).retired() == 0,
        1 <= n <= 2 ==> alphabet_arena(n).capacity == 2 && alphabet_arena(n).used() == n
            && alphabet_arena(n).retired() == 1,
        3 <= n <= 6 ==> alphabet_arena(n).capacity == 4 && alphabet_arena(n).used() == n - 2
            && alphabet_arena(n).retired() == 2,
        7 <= n <= 14 ==> alphabet_arena(n).capacity == 8 && alphabet_arena(n).used() == n - 6
            && alphabet_arena(n).retired() == 3,
        15 <= n <= 30 ==> alphabet_arena(n).capacity == 16 && alphabet_arena(n).used() == n - 14
            && alphabet_arena(n).retired() == 4,
        31 <= n <= 52 ==> alphabet_arena(n).capacity == 32 && alphabet_arena(n).used() == n - 30
            && alphabet_arena(n).retired() == 5,
    decreases n,
{
    if n > 0 {
        lemma_alphabet_arena(n - 1);
        let text = alphabet()[n - 1];
        assert(alphabet().take(n).drop_last() =~= alphabet().take(n - 1));
        assert(alphabet().take(n).last() == text);
        assert(is_ascii_chars(text));
        is_ascii_chars_encode_utf8(text);
        alphabet_arena(n - 1).lemma_store_wf(text);
        reveal_with_fuel(crate::power::next_power_of_two, 6);
    }
}

/// An interner that holds the 52 letters, interned one by one from `a` to
/// `z` and then from `A` to `Z` into an interner that had allocated nothing.
pub fn init_with_alphabet() -> (lexicon: Lexicon)
    ensures
        lexicon.wf(),
        lexicon@ == alphabet(),
        lexicon.spec_arena()@ == alphabet_arena(52),
{
    let letters = "abcdefghijklmnopqrstuvwxyzABCDEFGHIJKLMNOPQRSTUVWXYZ";
    proof {
        reveal_strlit("abcdefghijklmnopqrstuvwxyzABCDEFGHIJKLMNOPQRSTUVWXYZ");
        assert forall|i: int| 0 <= i < 52 implies #[trigger] letters@[i] == letter(i) by {}
    }
    let mut lexicon = Lexicon::default();
    let mut i: usize = 0;
    while i < 52
        invariant
            i <= 52,
            letters@.len() == 52,
            forall|i: int| 0 <= i < 52 ==> #[trigger] letters@[i] == letter(i),
            lexicon.wf(),
            lexicon@ == alphabet().take(i as int),
            lexicon.spec_arena()@ == alphabet_arena(i as int),
        decreases 52 - i,
    {
        let letter = letters.substring_ascii(i, i + 1);
        proof {
            assert(letter@ =~= alphabet()[i as int]);
            lemma_alphabet_distinct();
            is_ascii_chars_encode_utf8(letter@);
            lemma_alphabet_arena(i as int);
            assert(alphabet().take(i + 1).drop_last() =~= alphabet().take(i as int));
            assert(alphabet().take(i as int).push(letter@) =~= alphabet().take(i + 1));
        }
        lexicon.intern(letter);
        i += 1;
    }
    proof {
        assert(alphabet().take(52) =~= alphabet());
    }
    lexicon
}

} // verus!
