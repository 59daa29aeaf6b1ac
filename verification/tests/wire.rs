use http_server::wire::{split_bytes, COLON, CR, LF, NUL, SP};

fn pieces(text: &[u8], sep: u8) -> Vec<Vec<u8>> {
    split_bytes(text, sep).iter().map(|piece| piece.to_vec()).collect()
}

fn strings(items: &[&str]) -> Vec<Vec<u8>> {
    items.iter().map(|item| item.as_bytes().to_vec()).collect()
}

#[test]
fn splitting_at_a_byte() {
    assert_eq!(pieces(b"GET / HTTP/1.1", SP), strings(&["GET", "/", "HTTP/1.1"]));
    assert_eq!(pieces(b"abc", SP), strings(&["abc"]));
    assert_eq!(pieces(b"", SP), strings(&[""]));
    assert_eq!(pieces(b" ", SP), strings(&["", ""]));
    assert_eq!(pieces(b"a  b", SP), strings(&["a", "", "b"]));
    assert_eq!(pieces(b" a ", SP), strings(&["", "a", ""]));
    assert_eq!(pieces(b"a:b:c", COLON), strings(&["a", "b", "c"]));
}

#[test]
fn splitting_agrees_with_the_standard_library() {
    let texts: [&[u8]; 6] = [b"", b"x", b"x y", b"  ", b"x  y z ", b" x"];
    for text in texts {
        let want: Vec<Vec<u8>> = text.split(|b| *b == SP).map(|piece| piece.to_vec()).collect();
        assert_eq!(pieces(text, SP), want);
    }
}

#[test]
fn the_bytes_that_matter() {
    assert_eq!(CR, b'\r');
    assert_eq!(LF, b'\n');
    assert_eq!(SP, b' ');
    assert_eq!(COLON, b':');
    assert_eq!(NUL, 0);
}
