use blockchain_unleashed::buffers::GrowBuf;
use blockchain_unleashed::devices::{MockGateway, Port};
use blockchain_unleashed::text::u64_to_decimal;
use blockchain_unleashed::words::{Trimmed, Words};

#[test]
fn decimal_text() {
    assert_eq!(u64_to_decimal(0), "0");
    assert_eq!(u64_to_decimal(105), "105");
    assert_eq!(u64_to_decimal(u64::MAX), "18446744073709551615");
}

#[test]
fn growbuf_pushes_and_grows() {
    let mut g = GrowBuf::with_capacity(2);
    assert_eq!(g.as_slice(), &[] as &[u32]);
    for i in 0..5 {
        g.push(i);
    }
    assert_eq!(g.as_slice(), &[0, 1, 2, 3, 4]);
    let mut z = GrowBuf::with_capacity(0);
    z.push(9);
    assert_eq!(z.as_slice(), &[9]);
}

#[test]
fn port_get_and_text() {
    let p = Port(502);
    assert_eq!(p.to_text(), "port:502");
    assert_eq!(p.get(), 502);
    assert_eq!(Port(0).to_text(), "port:0");
}

#[test]
fn gateway_connect() {
    assert_eq!(MockGateway { device_id: 42 }.connect(), Ok(42));
    assert_eq!(MockGateway { device_id: 0 }.connect(), Err("invalid device"));
}

#[test]
fn words_split_on_whitespace() {
    let mut it = Words::new("hello async gats");
    let mut got = Vec::new();
    while let Some(w) = it.next() {
        got.push(w);
    }
    assert_eq!(got, vec!["hello", "async", "gats"]);
    let mut it = Words::new("  a\u{3000}b\t\nc  ");
    assert_eq!(it.next().as_deref(), Some("a"));
    assert_eq!(it.next().as_deref(), Some("b"));
    assert_eq!(it.next().as_deref(), Some("c"));
    assert_eq!(it.next(), None);
    assert_eq!(Words::new("   ").next(), None);
}

#[test]
fn trimmed_strips_both_ends() {
    assert_eq!(String::from("  hello  ").trimmed(), "hello");
    assert_eq!(String::from("\u{a0}x y\u{2003}").trimmed(), "x y");
    assert_eq!(String::from(" \t ").trimmed(), "");
    assert_eq!(String::from("").trimmed(), "");
    assert_eq!(String::from("abc").trimmed(), "abc");
}

#[test]
fn words_yield_split_whitespace() {
    for text in ["", "  ", "one", " a  bb\tccc\n", "x\u{85}y\u{2028}z ", "é ü\u{a0}ß"] {
        let mut it = Words::new(text);
        let mut got = Vec::new();
        while let Some(w) = it.next() {
            got.push(w);
        }
        let expected: Vec<String> = text.split_whitespace().map(|w| w.to_string()).collect();
        assert_eq!(got, expected);
        assert_eq!(it.next(), None);
        assert_eq!(it.next(), None);
    }
}

#[test]
fn growbuf_len_and_reserved() {
    let mut g = GrowBuf::with_capacity(1);
    assert_eq!(g.len(), 0);
    assert_eq!(g.reserved(), 1);
    g.push(1);
    assert_eq!(g.reserved(), 1);
    g.push(2);
    assert_eq!(g.reserved(), 3);
    assert_eq!(g.len(), 2);
}
