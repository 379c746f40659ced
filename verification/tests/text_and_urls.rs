use stock_tracker::forms::{PortfolioForm, SymbolForm};
use stock_tracker::text::{is_whitespace, normalize_symbol, path_symbol, trim, valid_symbol};
use stock_tracker::url::{chart_url, urlencoding};

#[test]
fn urlencoding_keeps_plain_symbols() {
    assert_eq!(urlencoding("MSFT"), "MSFT");
    assert_eq!(urlencoding("BHP.AX"), "BHP.AX");
    assert_eq!(urlencoding("a-b_c.d~e"), "a-b_c.d~e");
    assert_eq!(urlencoding(""), "");
}

#[test]
fn urlencoding_escapes_other_characters() {
    assert_eq!(urlencoding("^GSPC"), "%5EGSPC");
    assert_eq!(urlencoding("EURUSD=X"), "EURUSD%3DX");
    assert_eq!(urlencoding("a b"), "a%20b");
    assert_eq!(urlencoding("\n"), "%0A");
    assert_eq!(urlencoding("/"), "%2F");
    assert_eq!(urlencoding("%"), "%25");
}

#[test]
fn urlencoding_uses_code_points() {
    assert_eq!(urlencoding("\u{e9}"), "%E9");
    assert_eq!(urlencoding("\u{20ac}"), "%20AC");
    assert_eq!(urlencoding("\u{1f600}"), "%1F600");
}

#[test]
fn urlencoding_splits_over_concatenation() {
    let a = "BRK B";
    let b = "^X=1";
    let joined = format!("{}{}", a, b);
    assert_eq!(urlencoding(&joined), format!("{}{}", urlencoding(a), urlencoding(b)));
}

#[test]
fn chart_url_for_symbol() {
    assert_eq!(
        chart_url("BHP.AX"),
        "https://query1.finance.yahoo.com/v8/finance/chart/BHP.AX?range=3mo&interval=1d"
    );
    assert_eq!(
        chart_url("^GSPC"),
        "https://query1.finance.yahoo.com/v8/finance/chart/%5EGSPC?range=3mo&interval=1d"
    );
}

#[test]
fn whitespace_set() {
    for c in [' ', '\t', '\n', '\u{b}', '\u{c}', '\r', '\u{85}', '\u{a0}', '\u{1680}', '\u{2000}', '\u{200a}', '\u{2028}', '\u{2029}', '\u{202f}', '\u{205f}', '\u{3000}'] {
        assert!(is_whitespace(c), "{:?}", c);
        assert_eq!(is_whitespace(c), c.is_whitespace());
    }
    for c in ['a', '0', '\u{200b}', '\u{180e}', '\u{feff}', '\u{0}'] {
        assert!(!is_whitespace(c), "{:?}", c);
        assert_eq!(is_whitespace(c), c.is_whitespace());
    }
    for u in 0u32..0x3100 {
        if let Some(c) = char::from_u32(u) {
            assert_eq!(is_whitespace(c), c.is_whitespace(), "{:#x}", u);
        }
    }
}

#[test]
fn trim_removes_outer_whitespace() {
    assert_eq!(trim("  msft \n"), "msft");
    assert_eq!(trim("\u{3000}a b\u{a0}"), "a b");
    assert_eq!(trim("   "), "");
    assert_eq!(trim(""), "");
    assert_eq!(trim("x"), "x");
    let s = " \t BHP.AX  ";
    assert_eq!(trim(s), s.trim());
    assert_eq!(trim(&trim(s)), trim(s));
}

#[test]
fn normalize_symbol_trims_and_uppercases() {
    assert_eq!(normalize_symbol(&Some("  msft ".to_string())), "MSFT");
    assert_eq!(normalize_symbol(&Some("bhp.ax".to_string())), "BHP.AX");
    assert_eq!(normalize_symbol(&None), "");
    assert_eq!(normalize_symbol(&Some("stra\u{df}e".to_string())), "STRASSE");
}

#[test]
fn path_symbol_uppercases() {
    assert_eq!(path_symbol("bhp.ax"), "BHP.AX");
    assert_eq!(path_symbol("MSFT"), "MSFT");
    assert_eq!(path_symbol("\u{131}bm"), "IBM");
}

#[test]
fn valid_symbol_rules() {
    assert!(valid_symbol("MSFT"));
    assert!(valid_symbol("BHP.AX"));
    assert!(valid_symbol("^GSPC"));
    assert!(valid_symbol("EURUSD=X"));
    assert!(valid_symbol("BRK-B"));
    assert!(valid_symbol("ABCDEFGHIJKLMNO"));
    assert!(!valid_symbol("ABCDEFGHIJKLMNOP"));
    assert!(!valid_symbol(""));
    assert!(!valid_symbol("msft"));
    assert!(!valid_symbol("MS FT"));
    assert!(!valid_symbol("A/B"));
    assert!(!valid_symbol("\u{c9}"));
}

#[test]
fn symbol_form_accepts_normalized_symbol() {
    let f = SymbolForm { symbol: Some(" bhp.ax ".to_string()) };
    assert_eq!(f.accepted_symbol(), Some("BHP.AX".to_string()));
    let f = SymbolForm { symbol: None };
    assert_eq!(f.accepted_symbol(), None);
    let f = SymbolForm { symbol: Some("   ".to_string()) };
    assert_eq!(f.accepted_symbol(), None);
    let f = SymbolForm { symbol: Some("not a symbol".to_string()) };
    assert_eq!(f.accepted_symbol(), None);
}

#[test]
fn portfolio_form_accepts_normalized_symbol() {
    let f = PortfolioForm {
        symbol: Some("msft".to_string()),
        shares: Some("10".to_string()),
        price_paid: Some("300.5".to_string()),
    };
    assert_eq!(f.accepted_symbol(), Some("MSFT".to_string()));
    let f = PortfolioForm { symbol: Some("a?b".to_string()), shares: None, price_paid: None };
    assert_eq!(f.accepted_symbol(), None);
}

#[test]
fn encoding_is_url_safe_everywhere() {
    for s in ["a b/c?d", "\u{e9}t\u{e9}", "x=1&y=2", "%41", "\u{1f600}"] {
        let e = urlencoding(s);
        assert!(e.chars().all(|c| c.is_ascii_alphanumeric() || "-_.~%".contains(c)), "{}", e);
    }
}
