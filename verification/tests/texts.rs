use kei::html::{html_escape, html_escape_or, page};
use kei::numbers::{decimal_text, human_bytes, parse_u64, push_quotient, signed_decimal_text};
use kei::paths;
use kei::text::{self, CharClass};
use kei::time::Timestamp;
use std::path::Path;

#[test]
fn splits_like_std() {
    for s in ["", "a", "a,b", ",a,,b,", "ä,ö"] {
        let expected: Vec<&str> = s.split(',').collect();
        assert_eq!(text::split_on(s, ','), expected);
        assert_eq!(text::split_once(s, ','), s.split_once(','));
        assert_eq!(text::rsplit_once(s, ','), s.rsplit_once(','));
        for n in 1..4 {
            let pieces: Vec<&str> = s.splitn(n, ',').collect();
            assert_eq!(text::splitn(s, n, ','), pieces);
        }
    }
}

#[test]
fn lines_like_std() {
    for s in ["", "\n", "a\nb", "a\r\nb\n", "a\n\nb\r", "\r\n\r\n"] {
        let expected: Vec<&str> = s.lines().collect();
        assert_eq!(text::lines_of(s), expected);
    }
}

#[test]
fn trims_like_std() {
    for s in ["", "  ", " a b ", "\t\u{a0}x\u{3000}\u{85}", "\u{200b}x\u{200b}", "\u{2028}y"] {
        assert_eq!(text::trim(s, CharClass::Space), s.trim());
        assert_eq!(text::trim_start(s, CharClass::Space), s.trim_start());
        assert_eq!(text::trim_end(s, CharClass::Space), s.trim_end());
        assert_eq!(text::word(s), s.split_whitespace().next());
    }
    assert_eq!(text::trim("//a/b//", CharClass::Slash), "a/b");
}

#[test]
fn whitespace_is_that_of_std() {
    let mut code: u32 = 0;
    while code < 0x4000 {
        if let Some(c) = char::from_u32(code) {
            assert_eq!(CharClass::Space.test(c), c.is_whitespace(), "{code:x}");
        }
        code += 1;
    }
}

#[test]
fn trimming_twice_is_trimming_once() {
    let once = text::trim("  a  ", CharClass::Space);
    assert_eq!(text::trim(once, CharClass::Space), once);
}

#[test]
fn replaces_like_std() {
    for (s, p, r) in [
        ("{a} and {a}", "{a}", "b"),
        ("aaaa", "aa", "b"),
        ("", "x", "y"),
        ("abc", "x", "y"),
        ("a'b'c", "'", "'\\''"),
    ] {
        assert_eq!(text::replace(s, p, r), s.replace(p, r));
    }
    assert_eq!(text::split_once_text("a...b", "..."), Some(("a", "b")));
    assert_eq!(text::split_once_text("a..b", "..."), None);
}

#[test]
fn joins_and_compares() {
    let v: Vec<String> = vec!["a".to_string(), "".to_string(), "b".to_string()];
    assert_eq!(text::join(&v, "-"), "a--b");
    assert_eq!(text::join(&Vec::new(), "-"), "");
    for (a, b) in [("", ""), ("", "a"), ("a", "b"), ("ab", "a"), ("é", "z"), ("a", "a")] {
        assert_eq!(text::before(a, b), a < b);
        assert_eq!(text::same(a, b), a == b);
    }
    assert_eq!(text::to_ascii_lower("ÄBc[Z"), "Äbc[z");
    assert_eq!(text::first_n("héllo", 2), "hé");
}

#[test]
fn joined_parts_are_split_again() {
    let parts: Vec<String> = vec!["a".to_string(), "".to_string(), "bc".to_string()];
    let joined = text::join(&parts, "/");
    assert_eq!(text::split_on(&joined, '/'), vec!["a", "", "bc"]);
}

#[test]
fn decimals_round_trip() {
    for n in [0u64, 7, 10, 105, 999, 1_000_000, u64::MAX] {
        assert_eq!(decimal_text(n), n.to_string());
        assert_eq!(parse_u64(&decimal_text(n)), Some(n));
    }
    for n in [0i64, -1, 42, -105, i64::MAX, i64::MIN] {
        assert_eq!(signed_decimal_text(n), n.to_string());
    }
}

#[test]
fn parses_like_std() {
    for s in ["", "+", "-1", "+7", "007", "18446744073709551615", "18446744073709551616", "1a", " 1"] {
        assert_eq!(parse_u64(s), s.parse::<u64>().ok(), "{s:?}");
    }
}

#[test]
fn sizes_for_people() {
    assert_eq!(human_bytes(0), "0 B");
    assert_eq!(human_bytes(1023), "1023 B");
    assert_eq!(human_bytes(1024), "1.0 KB");
    assert_eq!(human_bytes(1536), "1.5 KB");
    assert_eq!(human_bytes(5 * 1024 * 1024), "5.00 MB");
    assert_eq!(human_bytes(3 * 1024 * 1024 * 1024 / 2), "1.50 GB");
    assert_eq!(human_bytes(1 << 40), "1.00 TB");
}

#[test]
fn sizes_agree_with_floating_point() {
    let mut n: u64 = 1;
    while n < u64::MAX / 3 {
        for m in [n, n + 1, n + n / 3] {
            let mb = m as f64 / 1_048_576.0;
            let mut s = String::new();
            push_quotient(&mut s, m, 1_048_576, 2);
            assert_eq!(s, format!("{mb:.2}"), "{m}");
            if m >= 1024 && m < 1_048_576 {
                assert_eq!(human_bytes(m), format!("{:.1} KB", m as f64 / 1024.0));
            }
            if m >= 1 << 40 {
                assert_eq!(human_bytes(m), format!("{:.2} TB", m as f64 / (1u64 << 40) as f64));
            }
        }
        n = n * 3 / 2 + 1;
    }
    let max = u64::MAX as f64 / (1u64 << 40) as f64;
    assert_eq!(human_bytes(u64::MAX), format!("{max:.2} TB"));
}

#[test]
fn escapes_html() {
    assert_eq!(html_escape("a<b>&\"c'd"), "a&lt;b&gt;&amp;&quot;c&#39;d");
    assert_eq!(html_escape("plain — text"), "plain — text");
    let s = html_escape("<script>alert('x')</script>");
    assert!(!s.contains('<') && !s.contains('>') && !s.contains('"') && !s.contains('\''));
    assert_eq!(html_escape_or(&None, "—"), "—");
    assert_eq!(html_escape_or(&Some("<".to_string()), "—"), "&lt;");
}

#[test]
fn escaped_text_is_read_back() {
    let s = "&amp;<&>'\"";
    let read = html_escape(s)
        .replace("&lt;", "<")
        .replace("&gt;", ">")
        .replace("&quot;", "\"")
        .replace("&#39;", "'")
        .replace("&amp;", "&");
    assert_eq!(read, s);
}

#[test]
fn wraps_pages() {
    let p = page("A & B", "<p>body</p>");
    assert!(p.starts_with("<!doctype html>\n<html lang=\"en\">\n<head>\n<meta charset=\"utf-8\">\n<title>A &amp; B · Kei</title>\n<style>\n  :root {\n"));
    assert!(p.ends_with("  .diff-ctx { color: var(--fg); }\n</style>\n</head>\n<body>\n<p>body</p>\n</body>\n</html>\n"));
}

#[test]
fn joins_paths_like_std() {
    for (a, b) in [("/a", "b"), ("/a/", "b"), ("", "b"), ("a", "/b"), ("a", ""), (".", "x/y")] {
        assert_eq!(paths::join(a, b), Path::new(a).join(b).to_string_lossy());
        assert_eq!(paths::is_absolute(b), Path::new(b).is_absolute());
    }
}

#[test]
fn relative_paths_like_std() {
    for (p, base) in [
        ("/a/b/c", "/a/b"),
        ("/a/bc", "/a/b"),
        ("/a//b/./c/", "/a/b"),
        ("/a/b", "/a/b"),
        ("/a/b", "/"),
        ("/x", "/a"),
        ("/a/b/c", "/a/b/"),
        ("/a/../b", "/a"),
    ] {
        let expected = Path::new(p).strip_prefix(base).ok().map(|r| r.to_string_lossy().into_owned());
        assert_eq!(paths::strip_base(p, base).map(str::to_string), expected, "{p} {base}");
        assert_eq!(paths::within(p, base), Path::new(p).starts_with(base));
    }
}

#[test]
fn names_and_extensions_like_std() {
    for p in ["/a/b.jar", "b", ".hidden", "a.tar.gz", "/a/..", "/", "", "/a/b/", "a/b/.", "x.", "/a/.b.c"] {
        let q = Path::new(p);
        assert_eq!(paths::file_name(p), q.file_name().and_then(|s| s.to_str()), "{p}");
        assert_eq!(paths::extension(p), q.extension().and_then(|s| s.to_str()), "{p}");
    }
}

#[test]
fn writes_times() {
    let epoch = Timestamp::new(0, 0).unwrap();
    assert_eq!(epoch.to_clock_text(), "1970-01-01 00:00:00 UTC");
    assert_eq!(epoch.to_minute_text(), "1970-01-01 00:00 UTC");
    assert_eq!(epoch.to_rfc_text(), "1970-01-01T00:00:00+00:00");
    let t = Timestamp::new(1_700_000_000, 500_000_000).unwrap();
    assert_eq!(t.to_clock_text(), "2023-11-14 22:13:20 UTC");
    assert_eq!(t.to_rfc_text(), "2023-11-14T22:13:20.500+00:00");
}

#[test]
fn measures_times() {
    let a = Timestamp::new(100, 900_000_000).unwrap();
    let b = Timestamp::new(103, 100_000_000).unwrap();
    assert_eq!(a.seconds_until(&b), 2);
    assert_eq!(b.seconds_until(&a), -2);
    assert!(b.is_later(&a));
    assert!(!a.is_later(&b));
    assert!(!a.is_later(&a));
    assert_eq!(a.parts(), (100, 900_000_000));
}

#[test]
fn leap_seconds_count() {
    // 2016-12-31 23:59:60, written as second 59 with a second of nanoseconds more.
    let leap = Timestamp::new(1_483_228_799, 1_500_000_000).unwrap();
    let before = Timestamp::new(1_483_228_799, 0).unwrap();
    let after = Timestamp::new(1_483_228_801, 0).unwrap();
    for (x, y) in [(leap, before), (before, leap), (leap, after), (after, leap), (before, after)] {
        let (xs, xn) = x.parts();
        let (ys, yn) = y.parts();
        let cx = chrono::DateTime::from_timestamp(xs, xn).unwrap();
        let cy = chrono::DateTime::from_timestamp(ys, yn).unwrap();
        assert_eq!(x.seconds_until(&y), (cy - cx).num_seconds());
    }
}

#[test]
fn times_outside_of_the_calendar() {
    assert!(Timestamp::new(i64::MAX, 0).is_none());
    assert!(Timestamp::new(i64::MIN, 0).is_none());
    assert!(Timestamp::new(0, 1_000_000_000).is_none());
    for (secs, nanos) in [
        (-8334601228800, 0),
        (-8334601228801, 0),
        (8210266876799, 999_999_999),
        (8210266876800, 0),
        (59, 1_999_999_999),
        (59, 2_000_000_000),
        (-1, 1_000_000_000),
    ] {
        assert_eq!(
            Timestamp::new(secs, nanos).is_some(),
            chrono::DateTime::from_timestamp(secs, nanos).is_some(),
            "{secs} {nanos}"
        );
    }
}

#[test]
fn the_present_is_after_the_epoch() {
    let now = Timestamp::now();
    assert!(now.is_later(&Timestamp::new(1_600_000_000, 0).unwrap()));
}

#[test]
fn ties_are_rounded_like_floating_point() {
    let mut n: u64 = 1;
    while n < 400 {
        let m = n * 131_072;
        let mut s = String::new();
        push_quotient(&mut s, m, 1_048_576, 2);
        assert_eq!(s, format!("{:.2}", m as f64 / 1_048_576.0), "{m}");
        let kb = 1024 + n * 256;
        assert_eq!(human_bytes(kb), format!("{:.1} KB", kb as f64 / 1024.0), "{kb}");
        n += 1;
    }
    assert_eq!(human_bytes(1280), "1.2 KB");
    assert_eq!(human_bytes(1792), "1.8 KB");
    let odd = (1u64 << 63) + 1025;
    assert_eq!(human_bytes(odd), format!("{:.2} TB", odd as f64 / (1u64 << 40) as f64));
}
