use tickertools::text::push_decimal;

fn decimal(n: usize) -> String {
    let mut s = String::from("n=");
    push_decimal(&mut s, n);
    s
}

#[test]
fn decimal_notation() {
    assert_eq!(decimal(0), "n=0");
    assert_eq!(decimal(7), "n=7");
    assert_eq!(decimal(10), "n=10");
    assert_eq!(decimal(1234), "n=1234");
    assert_eq!(decimal(usize::MAX), format!("n={}", usize::MAX));
}
