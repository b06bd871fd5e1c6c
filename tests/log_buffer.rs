use sea_lantern::log_buffer::LogBuffer;

fn lines(b: &LogBuffer) -> Vec<String> {
    b.read_since(0)
}

#[test]
fn bound_three_keeps_last_three() {
    let mut b = LogBuffer::new();
    for l in ["a", "b", "c", "d"] {
        b.append(l.to_string(), 3);
    }
    assert_eq!(lines(&b), vec!["b", "c", "d"]);
}

#[test]
fn every_append_respects_the_bound() {
    let mut b = LogBuffer::new();
    let mut all: Vec<String> = Vec::new();
    for i in 0..20 {
        let l = format!("line {}", i);
        all.push(l.clone());
        b.append(l, 5);
        assert!(b.len() <= 5);
        let keep = all.len().min(5);
        assert_eq!(lines(&b), all[all.len() - keep..].to_vec());
    }
}

#[test]
fn bound_zero_keeps_nothing() {
    let mut b = LogBuffer::new();
    b.append("x".to_string(), 0);
    assert_eq!(b.len(), 0);
}

#[test]
fn read_since_past_end_is_empty() {
    let mut b = LogBuffer::new();
    b.append("a".to_string(), 10);
    b.append("b".to_string(), 10);
    assert_eq!(b.read_since(1), vec!["b"]);
    assert!(b.read_since(2).is_empty());
    assert!(b.read_since(100).is_empty());
}
