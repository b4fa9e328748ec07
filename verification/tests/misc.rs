use mdedit::filetree::{FileTree, NodeKind, TreeNode};
use mdedit::render::header_image::display_rows_for_tier;
use mdedit::sidebar::{SidebarState, SidebarWidget};
use mdedit::style::{Color, Modifier, Style};
use mdedit::theme::{bullet_color, heading_style, parse_osc11_channels, Channel, Theme};

#[test]
fn heading_rows_by_tier() {
    assert_eq!(display_rows_for_tier(1), 3);
    assert_eq!(display_rows_for_tier(2), 2);
    assert_eq!(display_rows_for_tier(3), 1);
    assert_eq!(display_rows_for_tier(6), 1);
}

#[test]
fn heading_styles_follow_theme() {
    let s = heading_style(Theme::Dark, 1);
    assert_eq!(s.fg, Some(Color::Cyan));
    assert!(s.add_modifier.bold);
    assert_eq!(heading_style(Theme::Light, 2).fg, Some(Color::Indexed(28)));
    assert_eq!(heading_style(Theme::Light, 5).fg, Some(Color::DarkGray));
    assert_eq!(heading_style(Theme::Dark, 4).fg, Some(Color::Gray));
    assert_eq!(bullet_color(Theme::Light), Color::Black);
    assert_eq!(bullet_color(Theme::Dark), Color::White);
    assert_eq!(Theme::default_theme(), Theme::Dark);
}

#[test]
fn patch_layers_styles() {
    let base = Style::new().fg(Color::Red).add_modifier(Modifier::bold());
    let over = Style::new().bg(Color::Blue).add_modifier(Modifier::italic());
    let p = base.patch(over);
    assert_eq!(p.fg, Some(Color::Red));
    assert_eq!(p.bg, Some(Color::Blue));
    assert!(p.add_modifier.bold && p.add_modifier.italic);
    assert_eq!(Style::new().patch(base), base);
    assert_eq!(base.patch(Style::new()), base);
}

fn tree_with(n: usize) -> FileTree {
    let children = (0..n)
        .map(|i| TreeNode {
            name: format!("f{}.md", i),
            path: format!("/r/f{}.md", i),
            kind: NodeKind::File,
            children: vec![],
            expanded: false,
        })
        .collect();
    let root = TreeNode { name: "r".to_string(), path: "/r".to_string(), kind: NodeKind::Directory, children, expanded: true };
    let mut t = FileTree { root, flat_view: vec![], selected_index: 0 };
    t.rebuild_flat_view();
    t
}

#[test]
fn sidebar_scrolls_to_selection() {
    let mut s = SidebarState::new(tree_with(20));
    for _ in 0..12 {
        s.file_tree.move_down();
    }
    s.adjust_scroll(5);
    assert_eq!(s.scroll_offset, 8);
    for _ in 0..10 {
        s.file_tree.move_up();
    }
    s.adjust_scroll(5);
    assert_eq!(s.scroll_offset, 2);
    s.adjust_scroll(0);
    assert_eq!(s.scroll_offset, 2);
}

#[test]
fn sidebar_marks_dirty_paths() {
    let s = SidebarState::new(tree_with(2));
    let dirty = vec![None, Some("/r/f1.md".to_string())];
    let w = SidebarWidget { state: &s, focused: true, dirty_paths: &dirty };
    assert!(w.is_dirty(&"/r/f1.md".to_string()));
    assert!(!w.is_dirty(&"/r/f0.md".to_string()));
}

fn parse_osc11(response: &[u8]) -> Option<(f64, f64, f64)> {
    let fraction = |c: Channel| -> f64 { c.value as f64 / ((1u64 << (c.digits * 4)) - 1) as f64 };
    let (r, g, b) = parse_osc11_channels(response)?;
    Some((fraction(r), fraction(g), fraction(b)))
}

#[test]
fn parses_8_bit_rgb() {
    let (r, g, b) = parse_osc11(b"\x1b]11;rgb:ff/ff/ff\x07").unwrap();
    assert!((r - 1.0).abs() < 1e-6);
    assert!((g - 1.0).abs() < 1e-6);
    assert!((b - 1.0).abs() < 1e-6);
}

#[test]
fn parses_16_bit_rgb() {
    let (r, g, b) = parse_osc11(b"\x1b]11;rgb:0000/0000/0000\x1b\\").unwrap();
    assert_eq!(r, 0.0);
    assert_eq!(g, 0.0);
    assert_eq!(b, 0.0);
}

#[test]
fn rejects_garbage() {
    assert!(parse_osc11(b"hello").is_none());
    assert!(parse_osc11(b"\x1b]11;rgb:gg/gg/gg\x07").is_none());
}

#[test]
fn osc11_channels_keep_value_and_digits() {
    let c = parse_osc11_channels(b"\x1b]11;rgb: 1a2b/00ff/ff \x07tail").unwrap();
    assert_eq!(c.0, Channel { value: 0x1a2b, digits: 4 });
    assert_eq!(c.1, Channel { value: 0xff, digits: 4 });
    assert_eq!(c.2, Channel { value: 0xff, digits: 2 });
    assert!(parse_osc11_channels(b"rgb:1/2").is_none());
    assert!(parse_osc11_channels(b"rgb:1/2/3/4").is_none());
    assert!(parse_osc11_channels(b"rgb:1//3").is_none());
    assert!(parse_osc11_channels(&[b'r', b'g', b'b', b':', 0xff, b'/', b'1', b'/', b'2']).is_none());
}
