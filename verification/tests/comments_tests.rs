use swcify::comments::{CommentKind, Comments, LeadingComment};
use swcify::process::preserve_excl;

#[test]
fn leading_comments_are_read_back_by_position_in_order() {
    let mut c = Comments::new();
    c.add_leading(5, CommentKind::Block, "a".to_string());
    c.add_leading(7, CommentKind::Line, "b".to_string());
    c.add_leading(5, CommentKind::Line, "c".to_string());
    assert_eq!(
        c.get_leading(5),
        vec![(CommentKind::Block, "a".to_string()), (CommentKind::Line, "c".to_string())]
    );
    assert_eq!(c.get_leading(7), vec![(CommentKind::Line, "b".to_string())]);
    assert!(c.get_leading(6).is_empty());
}

#[test]
fn minified_output_keeps_only_bang_comments() {
    let mk = |t: &str| LeadingComment { pos: 1, kind: CommentKind::Block, text: t.to_string() };
    let mut cs = vec![mk("! license"), mk(" note"), mk("!keep"), mk("")];
    assert!(preserve_excl(&mut cs));
    let texts: Vec<String> = cs.iter().map(|c| c.text.clone()).collect();
    assert_eq!(texts, vec!["! license".to_string(), "!keep".to_string()]);
    let mut none = vec![mk("plain")];
    assert!(!preserve_excl(&mut none));
    assert!(none.is_empty());
}
