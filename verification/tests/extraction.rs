use feed_relay::decimal::{parse_i64, push_decimal};
use feed_relay::extract::{
    assemble, last_path_segment, parse_epoch_seconds, parse_post_text, strip_tracking_suffix,
    PostHead, ShapeError,
};
use feed_relay::item::Item;
use feed_relay::text::chars_of;

const ROOT: &str = "https://facebook.com/";

fn head(sequence: u32, body: &str) -> PostHead {
    PostHead { sequence, body: body.to_string() }
}

#[test]
fn chars_of_keeps_every_character() {
    assert_eq!(chars_of("a№ b"), vec!['a', '№', ' ', 'b']);
    assert_eq!(chars_of(""), Vec::<char>::new());
}

#[test]
fn signed_numerals_are_read() {
    assert_eq!(parse_i64(&chars_of("0")), Some(0));
    assert_eq!(parse_i64(&chars_of("1700000000")), Some(1700000000));
    assert_eq!(parse_i64(&chars_of("-5")), Some(-5));
    assert_eq!(parse_i64(&chars_of("+7")), Some(7));
    assert_eq!(parse_i64(&chars_of("007")), Some(7));
    assert_eq!(parse_i64(&chars_of("9223372036854775807")), Some(i64::MAX));
    assert_eq!(parse_i64(&chars_of("-9223372036854775808")), Some(i64::MIN));
}

#[test]
fn signed_numerals_out_of_range_or_malformed_are_refused() {
    assert_eq!(parse_i64(&chars_of("9223372036854775808")), None);
    assert_eq!(parse_i64(&chars_of("-9223372036854775809")), None);
    assert_eq!(parse_i64(&chars_of("99999999999999999999999999999999999999999")), None);
    assert_eq!(parse_i64(&chars_of("")), None);
    assert_eq!(parse_i64(&chars_of("-")), None);
    assert_eq!(parse_i64(&chars_of("+")), None);
    assert_eq!(parse_i64(&chars_of("12a")), None);
    assert_eq!(parse_i64(&chars_of(" 12")), None);
    assert_eq!(parse_i64(&chars_of("1_000")), None);
    assert_eq!(parse_i64(&chars_of("--1")), None);
}

#[test]
fn decimal_is_written_without_leading_zeros() {
    let mut out = String::from("n=");
    push_decimal(&mut out, 0);
    assert_eq!(out, "n=0");
    let mut out = String::new();
    push_decimal(&mut out, 10);
    assert_eq!(out, "10");
    let mut out = String::new();
    push_decimal(&mut out, 4294967295);
    assert_eq!(out, "4294967295");
    let mut out = String::new();
    push_decimal(&mut out, 90817);
    assert_eq!(out, "90817");
}

#[test]
fn written_decimal_reads_back() {
    for n in [0u32, 1, 9, 10, 99, 100, 101, 12345, 4294967295] {
        let mut out = String::from("#");
        push_decimal(&mut out, n);
        out.push_str(" body");
        assert_eq!(parse_post_text(&out), Ok(head(n, "body")));
    }
}

#[test]
fn post_text_splits_number_and_body() {
    assert_eq!(parse_post_text("#123 hello world"), Ok(head(123, "hello world")));
    assert_eq!(parse_post_text("#5 "), Ok(head(5, "")));
    assert_eq!(parse_post_text("#007 a  b "), Ok(head(7, "a  b ")));
    assert_eq!(parse_post_text("№12 text"), Ok(head(12, "text")));
    assert_eq!(parse_post_text("#4294967295 top"), Ok(head(4294967295, "top")));
    assert_eq!(parse_post_text("#0 zero\nsecond line"), Ok(head(0, "zero\nsecond line")));
}

#[test]
fn post_text_of_another_shape_is_refused() {
    assert_eq!(parse_post_text(""), Err(ShapeError::PostText));
    assert_eq!(parse_post_text("#123"), Err(ShapeError::PostText));
    assert_eq!(parse_post_text("# text"), Err(ShapeError::PostText));
    assert_eq!(parse_post_text(" #12 text"), Err(ShapeError::PostText));
    assert_eq!(parse_post_text("123 text"), Err(ShapeError::PostText));
    assert_eq!(parse_post_text("#+5 text"), Err(ShapeError::PostText));
    assert_eq!(parse_post_text("#-5 text"), Err(ShapeError::PostText));
    assert_eq!(parse_post_text("#12a text"), Err(ShapeError::PostText));
    assert_eq!(parse_post_text("#4294967296 text"), Err(ShapeError::PostText));
    assert_eq!(parse_post_text("#12\ttext"), Err(ShapeError::PostText));
    assert_eq!(parse_post_text("hello world"), Err(ShapeError::PostText));
}

#[test]
fn epoch_seconds_are_read_where_their_milliseconds_fit() {
    assert_eq!(parse_epoch_seconds("1700000000"), Ok(1700000000));
    assert_eq!(parse_epoch_seconds("0"), Ok(0));
    assert_eq!(parse_epoch_seconds("-86400"), Ok(-86400));
    assert_eq!(parse_epoch_seconds("9223372036854775"), Ok(9223372036854775));
    assert_eq!(parse_epoch_seconds("-9223372036854775"), Ok(-9223372036854775));
    assert_eq!(parse_epoch_seconds("9223372036854776"), Err(ShapeError::Timestamp));
    assert_eq!(parse_epoch_seconds("-9223372036854776"), Err(ShapeError::Timestamp));
    assert_eq!(parse_epoch_seconds(""), Err(ShapeError::Timestamp));
    assert_eq!(parse_epoch_seconds("yesterday"), Err(ShapeError::Timestamp));
    assert_eq!(parse_epoch_seconds("17.5"), Err(ShapeError::Timestamp));
}

#[test]
fn tracking_suffix_is_taken_off_the_end_only() {
    assert_eq!(strip_tracking_suffix("page/posts/77?ref=embed_post"), "page/posts/77");
    assert_eq!(strip_tracking_suffix("page/posts/77"), "page/posts/77");
    assert_eq!(strip_tracking_suffix("?ref=embed_post"), "");
    assert_eq!(strip_tracking_suffix(""), "");
    assert_eq!(strip_tracking_suffix("ref=embed_post"), "ref=embed_post");
    assert_eq!(
        strip_tracking_suffix("page?ref=embed_post/posts/77"),
        "page?ref=embed_post/posts/77"
    );
    assert_eq!(
        strip_tracking_suffix("p?ref=embed_post?ref=embed_post"),
        "p?ref=embed_post"
    );
}

#[test]
fn last_path_segment_follows_the_last_slash() {
    assert_eq!(last_path_segment("a/b/c"), Some("c".to_string()));
    assert_eq!(last_path_segment("https://facebook.com/page/posts/pfbid0x"), Some("pfbid0x".to_string()));
    assert_eq!(last_path_segment("a/"), Some(String::new()));
    assert_eq!(last_path_segment("/"), Some(String::new()));
    assert_eq!(last_path_segment("abc"), None);
    assert_eq!(last_path_segment(""), None);
}

#[test]
fn entry_is_assembled_from_head_and_details() {
    let item = assemble(head(104, "a secret"), Some("1700000000"), Some("page/posts/abc?ref=embed_post"), ROOT);
    assert_eq!(
        item,
        Ok(Item {
            sequence: 104,
            text: "a secret".to_string(),
            published_at: 1700000000000,
            timestamp: 1700000000,
            permalink: "https://facebook.com/page/posts/abc".to_string(),
            source_id: "abc".to_string(),
        })
    );
}

#[test]
fn entry_with_negative_instant_keeps_both_forms() {
    let item = assemble(head(1, ""), Some("-2"), Some("x"), ROOT).unwrap();
    assert_eq!(item.published_at, -2000);
    assert_eq!(item.timestamp, -2);
    assert_eq!(item.permalink, "https://facebook.com/x");
    assert_eq!(item.source_id, "x");
}

#[test]
fn entry_with_unreadable_details_is_refused() {
    assert_eq!(assemble(head(1, "b"), Some("soon"), Some("page/posts/abc"), ROOT), Err(ShapeError::Timestamp));
    assert_eq!(assemble(head(1, "b"), Some("soon"), Some("abc"), ""), Err(ShapeError::Timestamp));
    assert_eq!(assemble(head(1, "b"), Some("12"), Some("abc"), ""), Err(ShapeError::Permalink));
    assert_eq!(assemble(head(1, "b"), Some("12"), Some("abc?ref=embed_post"), "root:"), Err(ShapeError::Permalink));
    assert_eq!(
        assemble(head(1, "b"), Some("9223372036854776"), Some("page/posts/abc"), ROOT),
        Err(ShapeError::Timestamp)
    );
}

#[test]
fn entry_with_a_missing_attribute_is_refused() {
    assert_eq!(assemble(head(1, "b"), None, Some("p/1"), ROOT), Err(ShapeError::Timestamp));
    assert_eq!(assemble(head(1, "b"), None, None, ROOT), Err(ShapeError::Timestamp));
    assert_eq!(assemble(head(1, "b"), Some("1"), None, ROOT), Err(ShapeError::Permalink));
    assert_eq!(assemble(head(1, "b"), Some("x"), None, ROOT), Err(ShapeError::Timestamp));
}

#[test]
fn announcement_names_number_body_and_permalink() {
    let item = assemble(head(105, "hello there"), Some("1700000000"), Some("page/posts/abc"), ROOT).unwrap();
    assert_eq!(item.render(), "**#105** hello there\n<https://facebook.com/page/posts/abc>");
    let first = Item {
        sequence: 0,
        text: String::new(),
        published_at: 0,
        timestamp: 0,
        permalink: String::new(),
        source_id: String::new(),
    };
    assert_eq!(first.render(), "**#0** \n<>");
    let last = Item { sequence: u32::MAX, text: "x".to_string(), ..first.duplicate() };
    assert_eq!(last.render(), "**#4294967295** x\n<>");
}

#[test]
fn duplicate_equals_the_entry() {
    let item = assemble(head(9, "nine"), Some("90"), Some("p/9"), ROOT).unwrap();
    assert_eq!(item.duplicate(), item);
}
