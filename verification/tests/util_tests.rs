use bandsnatch::util::drain_with_schedule;
use bandsnatch::util::i32_to_string;
use bandsnatch::util::make_string_fs_safe;
use bandsnatch::util::slice_string;
use bandsnatch::util::split_char_exec;
use bandsnatch::util::str_eq;
use bandsnatch::util::trim_quotes_exec;
use bandsnatch::util::u64_to_string;
use bandsnatch::util::WorkQueue;

#[test]
fn fs_safe_replaces_reserved_characters() {
    let out = make_string_fs_safe("AC/DC: Back In Black?");
    assert_eq!(out, "AC\u{ff0f}DC\u{a789} Back In Black\u{ff1f}");
    for c in [':', '/', '\\', '"', '*', '<', '>', '?', '|'] {
        assert!(!out.contains(c));
    }
}

#[test]
fn fs_safe_appends_filler_after_trailing_dot() {
    assert_eq!(make_string_fs_safe("abc."), "abc._");
    assert_eq!(make_string_fs_safe("abc "), "abc _");
    assert_eq!(make_string_fs_safe("abc"), "abc");
}

#[test]
fn fs_safe_every_reserved_char() {
    let out = make_string_fs_safe("a:b/c\\d\"e*f<g>h?i|j");
    assert_eq!(
        out,
        "a\u{a789}b\u{ff0f}c\u{29f9}d\u{ff02}e\u{22c6}f\u{ff1c}g\u{ff1e}h\u{ff1f}i\u{2223}j"
    );
}

#[test]
fn slice_string_drops_leading_characters() {
    assert_eq!(slice_string("filename=abc", 9), "abc");
    assert_eq!(slice_string("abc", 3), "");
    assert_eq!(slice_string("abc", 10), "");
    assert_eq!(slice_string("héllo", 1), "éllo");
}

#[test]
fn str_eq_compares_by_characters() {
    assert!(str_eq("träck", "träck"));
    assert!(!str_eq("track", "träck"));
    assert!(!str_eq("a", "ab"));
    assert!(str_eq("", ""));
}

#[test]
fn split_char_keeps_every_segment() {
    let parts = split_char_exec("a\tb\t\tc", '\t');
    assert_eq!(parts, vec!["a", "b", "", "c"]);
    let parts = split_char_exec("", '\t');
    assert_eq!(parts, vec![""]);
    let parts = split_char_exec("x\n", '\n');
    assert_eq!(parts, vec!["x", ""]);
}

#[test]
fn trim_quotes_strips_both_ends() {
    assert_eq!(trim_quotes_exec("\"album.zip\""), "album.zip");
    assert_eq!(trim_quotes_exec("\"\"\"x\"\""), "x");
    assert_eq!(trim_quotes_exec("plain"), "plain");
    assert_eq!(trim_quotes_exec("\"\""), "");
}

#[test]
fn decimal_renderings() {
    assert_eq!(u64_to_string(0), "0");
    assert_eq!(u64_to_string(1234567890), "1234567890");
    assert_eq!(i32_to_string(2018), "2018");
    assert_eq!(i32_to_string(-42), "-42");
    assert_eq!(i32_to_string(i32::MIN), "-2147483648");
}

#[test]
fn queue_hands_items_out_in_order_exactly_once() {
    let mut q = WorkQueue::from_vec(vec![1u32, 2, 3]);
    assert_eq!(q.len(), 3);
    assert_eq!(q.get_work(), Some(1));
    assert_eq!(q.get_work(), Some(2));
    assert_eq!(q.get_work(), Some(3));
    assert_eq!(q.get_work(), None);
    assert_eq!(q.len(), 0);
}

#[test]
fn drained_queue_claims_each_item_exactly_once() {
    let items: Vec<u32> = vec![10, 20, 30, 40, 50];
    let mut q = WorkQueue::from_vec(items.clone());
    let schedule: Vec<usize> = vec![0, 1, 0, 0, 1];
    let claims = drain_with_schedule(&mut q, &schedule, 2);
    assert_eq!(q.len(), 0);
    assert_eq!(claims.len(), 2);
    let mut all: Vec<u32> = claims.into_iter().flatten().collect();
    all.sort();
    assert_eq!(all, items);
}

#[test]
fn drain_with_more_workers_than_steps_leaves_rest() {
    let mut q = WorkQueue::from_vec(vec![1u32, 2, 3]);
    let schedule: Vec<usize> = vec![2];
    let claims = drain_with_schedule(&mut q, &schedule, 3);
    assert_eq!(claims[2], vec![1u32]);
    assert_eq!(q.len(), 2);
}
