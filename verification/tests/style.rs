use glow::deps::glamour::style::{
    cascade_block, cascade_blocks, cascade_primitive, cascade_primitives, StyleBlock,
    StylePrimitive,
};

#[test]
fn child_overrides_parent_color() {
    let parent = StylePrimitive {
        color: Some("252".into()),
        bold: Some(true),
        ..Default::default()
    };
    let child = StylePrimitive {
        color: Some("39".into()),
        ..Default::default()
    };
    let out = cascade_primitive(&parent, &child, false);
    assert_eq!(out.color.as_deref(), Some("39"));
    assert_eq!(out.bold, Some(true));
}

#[test]
fn prefixes_inherit_only_in_block_context() {
    let parent = StylePrimitive {
        prefix: "> ".into(),
        ..Default::default()
    };
    let child = StylePrimitive::default();
    assert_eq!(cascade_primitive(&parent, &child, false).prefix, "");
    assert_eq!(cascade_primitive(&parent, &child, true).prefix, "> ");
}

#[test]
fn block_margin_inherits_only_in_block_context() {
    let parent = StyleBlock {
        margin: Some(2),
        ..Default::default()
    };
    let child = StyleBlock::default();
    assert_eq!(cascade_block(&parent, &child, false).margin, None);
    assert_eq!(cascade_block(&parent, &child, true).margin, Some(2));
}

#[test]
fn format_is_never_inherited() {
    let parent = StylePrimitive {
        format: "{{.text}}".into(),
        ..Default::default()
    };
    let out = cascade_primitive(&parent, &StylePrimitive::default(), true);
    assert_eq!(out.format, "");
}

#[test]
fn chains_fold_left_to_right() {
    let a = StyleBlock {
        indent: Some(1),
        primitive: StylePrimitive {
            color: Some("1".into()),
            ..Default::default()
        },
        ..Default::default()
    };
    let b = StyleBlock {
        primitive: StylePrimitive {
            color: Some("2".into()),
            ..Default::default()
        },
        ..Default::default()
    };
    let out = cascade_blocks(&[&a, &b]);
    assert_eq!(out.primitive.color.as_deref(), Some("2"));
    assert_eq!(out.indent, Some(1));
    let p = cascade_primitives(&[&a.primitive, &StylePrimitive::default()]);
    assert_eq!(p.color.as_deref(), Some("1"));
}
