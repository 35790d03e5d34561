#[test]
fn inifinity() {
    let _inf = f64::INFINITY;
}
