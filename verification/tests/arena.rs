use lexicon::arena::{Arena, Span};
use lexicon::power::{round_up_to_power_of_two, MAX_CAPACITY};
use lexicon::text::str_eq;

#[test]
fn round_up_gives_the_least_power_of_two() {
    assert_eq!(round_up_to_power_of_two(0), 1);
    assert_eq!(round_up_to_power_of_two(1), 1);
    assert_eq!(round_up_to_power_of_two(2), 2);
    assert_eq!(round_up_to_power_of_two(3), 4);
    assert_eq!(round_up_to_power_of_two(4), 4);
    assert_eq!(round_up_to_power_of_two(5), 8);
    assert_eq!(round_up_to_power_of_two(100), 128);
    assert_eq!(round_up_to_power_of_two(1023), 1024);
    assert_eq!(round_up_to_power_of_two(1024), 1024);
    assert_eq!(round_up_to_power_of_two(1025), 2048);
}

#[test]
fn round_up_agrees_with_std() {
    for n in 0..5000usize {
        assert_eq!(round_up_to_power_of_two(n), n.next_power_of_two());
    }
    assert_eq!(round_up_to_power_of_two(MAX_CAPACITY), MAX_CAPACITY);
    assert_eq!(round_up_to_power_of_two(MAX_CAPACITY - 1), MAX_CAPACITY);
    assert_eq!(round_up_to_power_of_two(MAX_CAPACITY + 1), 2 * MAX_CAPACITY);
    assert_eq!(round_up_to_power_of_two(usize::MAX / 2 + 1), usize::MAX / 2 + 1);
}

#[test]
fn max_capacity_is_a_quarter_of_the_address_space() {
    assert_eq!(MAX_CAPACITY, 1usize << (usize::BITS - 2));
    assert!(MAX_CAPACITY.is_power_of_two());
    assert!(MAX_CAPACITY <= isize::MAX as usize);
}

#[test]
fn new_arena_is_empty() {
    let arena = Arena::with_capacity(8);
    assert_eq!(arena.capacity(), 8);
    assert_eq!(arena.used(), 0);
    assert_eq!(arena.retired(), 0);
    let arena = Arena::default();
    assert_eq!(arena.capacity(), 0);
    assert_eq!(arena.used(), 0);
    assert_eq!(arena.retired(), 0);
}

#[test]
fn store_appends_while_there_is_room() {
    let mut arena = Arena::with_capacity(8);
    let a = arena.store("abc");
    assert_eq!(a, Span { buf: 0, start: 0, end: 3 });
    let b = arena.store("de");
    assert_eq!(b, Span { buf: 0, start: 3, end: 5 });
    let c = arena.store("fgh");
    assert_eq!(c, Span { buf: 0, start: 5, end: 8 });
    assert_eq!(arena.capacity(), 8);
    assert_eq!(arena.used(), 8);
    assert_eq!(arena.retired(), 0);
    assert_eq!(arena.get(a), "abc");
    assert_eq!(arena.get(b), "de");
    assert_eq!(arena.get(c), "fgh");
}

#[test]
fn store_retires_a_buffer_that_is_too_small() {
    let mut arena = Arena::with_capacity(8);
    let a = arena.store("abcdef");
    // three more bytes do not fit in the two that are left
    let b = arena.store("ghi");
    assert_eq!(b, Span { buf: 1, start: 0, end: 3 });
    assert_eq!(arena.retired(), 1);
    assert_eq!(arena.capacity(), 16);
    assert_eq!(arena.used(), 3);
    assert_eq!(arena.get(a), "abcdef");
    assert_eq!(arena.get(b), "ghi");
}

#[test]
fn store_grows_past_a_long_string() {
    let mut arena = Arena::with_capacity(4);
    let long = "z".repeat(1000);
    let span = arena.store(&long);
    assert_eq!(span, Span { buf: 1, start: 0, end: 1000 });
    assert_eq!(arena.capacity(), 1024);
    assert_eq!(arena.get(span), long);
    // a string of exactly the old capacity also makes the buffer grow past it
    let mut arena = Arena::with_capacity(4);
    arena.store("a");
    let span = arena.store("bcde");
    assert_eq!(span, Span { buf: 1, start: 0, end: 4 });
    assert_eq!(arena.capacity(), 8);
}

#[test]
fn store_empty_string() {
    let mut arena = Arena::default();
    let e = arena.store("");
    assert_eq!(e, Span { buf: 0, start: 0, end: 0 });
    assert_eq!(arena.retired(), 0);
    assert_eq!(arena.capacity(), 0);
    assert_eq!(arena.get(e), "");
    let a = arena.store("a");
    assert_eq!(a, Span { buf: 1, start: 0, end: 1 });
    assert_eq!(arena.capacity(), 2);
    let e2 = arena.store("");
    assert_eq!(e2, Span { buf: 1, start: 1, end: 1 });
    assert_eq!(arena.get(e), "");
    assert_eq!(arena.get(e2), "");
    assert_eq!(arena.get(a), "a");
}

#[test]
fn store_counts_bytes_not_characters() {
    let mut arena = Arena::with_capacity(16);
    let a = arena.store("é");
    assert_eq!(a, Span { buf: 0, start: 0, end: 2 });
    let b = arena.store("日本");
    assert_eq!(b, Span { buf: 0, start: 2, end: 8 });
    let c = arena.store("🦀");
    assert_eq!(c, Span { buf: 0, start: 8, end: 12 });
    assert_eq!(arena.used(), 12);
    assert_eq!(arena.get(a), "é");
    assert_eq!(arena.get(b), "日本");
    assert_eq!(arena.get(c), "🦀");
}

#[test]
fn spans_stay_valid_through_growth() {
    let mut arena = Arena::default();
    let mut spans = Vec::new();
    for i in 0..300 {
        let text = format!("item-{}-é", i);
        spans.push((arena.store(&text), text));
        for (span, text) in spans.iter() {
            assert_eq!(arena.get(*span), text);
        }
    }
    assert!(arena.retired() >= 5);
}

#[test]
fn admits_ordinary_strings() {
    let arena = Arena::default();
    assert!(arena.admits(""));
    assert!(arena.admits("some text"));
    let arena = Arena::with_capacity(4);
    assert!(arena.admits("longer than four bytes"));
}

#[test]
fn arena_clone_keeps_contents_and_capacity() {
    let mut arena = Arena::with_capacity(8);
    let a = arena.store("abc");
    let mut copy = arena.clone();
    assert_eq!(copy.capacity(), 8);
    assert_eq!(copy.used(), 3);
    assert_eq!(copy.retired(), 0);
    assert_eq!(copy.get(a), "abc");
    let b = copy.store("de");
    assert_eq!(b, Span { buf: 0, start: 3, end: 5 });
    assert_eq!(arena.used(), 3);
    assert_eq!(copy.get(b), "de");
}

#[test]
fn str_eq_compares_contents() {
    assert!(str_eq("", ""));
    assert!(str_eq("abc", "abc"));
    assert!(!str_eq("abc", "abd"));
    assert!(!str_eq("abc", "ab"));
    assert!(!str_eq("", "a"));
    assert!(str_eq("日本語", "日本語"));
    assert!(!str_eq("日本語", "日本誤"));
    let owned = String::from("abc");
    assert!(str_eq(&owned, "abc"));
}
