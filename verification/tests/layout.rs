use rich_rust::renderables::layout::{
    blank_lines, divide_column, divide_row, merge_children, placeholder_segments, Layout,
    LayoutSplitter, Region,
};
use rich_rust::renderables::resolve::{clamp_sizes, minimums_exceed, ratio_resolve, Constraint};
use rich_rust::renderables::Renderable;
use rich_rust::segment::{split_lines, Segment};
use rich_rust::text::Text;

fn plain_lines(segments: Vec<Segment>) -> Vec<String> {
    split_lines(segments)
        .iter()
        .map(|line| line.iter().map(|s| s.text.as_str()).collect::<String>())
        .collect()
}

fn flexible(ratio: usize, minimum: usize) -> Constraint {
    Constraint { fixed: None, minimum, ratio }
}

fn fixed(size: usize, minimum: usize) -> Constraint {
    Constraint { fixed: Some(size), minimum, ratio: 1 }
}

#[test]
fn test_layout_split_row_dimensions() {
    let mut layout: Layout<Text> = Layout::new();
    layout.split_row(vec![Layout::new().name("left"), Layout::new().name("right")]);

    let segments = layout.render(10, 2);
    let lines = split_lines(segments);

    assert_eq!(lines.len(), 2);
    for line in &lines {
        let width: usize = line.iter().map(Segment::cell_length).sum();
        assert_eq!(width, 10);
    }
}

#[test]
fn test_layout_named_lookup() {
    let mut layout: Layout<Text> = Layout::new().name("root");
    layout.split_column(vec![
        Layout::new().name("header").size(1),
        Layout::new().name("body").ratio(2),
    ]);

    assert!(layout.get("root").is_some());
    assert!(layout.get("header").is_some());
    assert!(layout.get("body").is_some());
    assert!(layout.get("missing").is_none());
}

#[test]
fn resolve_equal_halves() {
    assert_eq!(ratio_resolve(10, &[flexible(1, 1), flexible(1, 1)]), vec![5, 5]);
}

#[test]
fn resolve_one_two_one() {
    let sizes = ratio_resolve(100, &[flexible(1, 1), flexible(2, 1), flexible(1, 1)]);
    assert_eq!(sizes, vec![25, 50, 25]);
}

#[test]
fn resolve_minimums_too_large() {
    let sizes = ratio_resolve(10, &[flexible(1, 8), flexible(1, 8), flexible(1, 8)]);
    assert_eq!(sizes, vec![3, 3, 4]);
    assert_eq!(sizes.iter().sum::<usize>(), 10);
}

#[test]
fn resolve_empty_list() {
    assert_eq!(ratio_resolve(10, &[]), Vec::<usize>::new());
}

#[test]
fn resolve_zero_total() {
    let sizes = ratio_resolve(0, &[flexible(1, 1), fixed(4, 1)]);
    assert_eq!(sizes, vec![0, 0]);
}

#[test]
fn resolve_fixed_and_flexible() {
    let sizes = ratio_resolve(20, &[fixed(5, 1), flexible(1, 1), flexible(2, 1)]);
    assert_eq!(sizes.iter().sum::<usize>(), 20);
    assert_eq!(sizes[0], 5);
    assert_eq!(sizes, vec![5, 5, 10]);
}

#[test]
fn resolve_fixed_below_minimum_is_raised() {
    let sizes = ratio_resolve(10, &[fixed(2, 4), flexible(1, 1)]);
    assert_eq!(sizes, vec![4, 6]);
}

#[test]
fn resolve_only_fixed_deals_leftover_round_robin() {
    let sizes = ratio_resolve(10, &[fixed(2, 1), fixed(2, 1), fixed(2, 1)]);
    assert_eq!(sizes, vec![4, 3, 3]);
}

#[test]
fn resolve_last_flexible_takes_the_rest() {
    let cs: Vec<Constraint> = (0..7).map(|_| flexible(1, 1)).collect();
    let sizes = ratio_resolve(10, &cs);
    assert_eq!(sizes, vec![1, 1, 1, 1, 1, 1, 4]);
}

#[test]
fn resolve_rounded_shares_overrun() {
    let cs: Vec<Constraint> = (0..4).map(|_| flexible(1, 1)).collect();
    let sizes = ratio_resolve(6, &cs);
    assert_eq!(sizes, vec![2, 2, 1, 1]);
}

#[test]
fn resolve_shrinks_from_the_end_above_minimum() {
    let sizes = ratio_resolve(5, &[fixed(10, 1), flexible(1, 1)]);
    assert_eq!(sizes, vec![4, 1]);
}

#[test]
fn resolve_zero_minimum_and_ratio_count_as_one() {
    let sizes = ratio_resolve(4, &[flexible(0, 0), flexible(0, 0)]);
    assert_eq!(sizes, vec![2, 2]);
}

#[test]
fn resolve_huge_ratios_do_not_overflow() {
    let sizes = ratio_resolve(100, &[flexible(usize::MAX, 1), flexible(usize::MAX, 1)]);
    assert_eq!(sizes, vec![50, 50]);
}

#[test]
fn resolve_sums_to_total_for_many_inputs() {
    for total in 0..40usize {
        for n in 1..6usize {
            let cs: Vec<Constraint> = (0..n)
                .map(|i| {
                    if i % 3 == 2 {
                        fixed(i + total % 4, 1 + i % 2)
                    } else {
                        flexible(1 + i % 3, 1 + (i + total) % 3)
                    }
                })
                .collect();
            let sizes = ratio_resolve(total, &cs);
            assert_eq!(sizes.len(), n);
            assert_eq!(sizes.iter().sum::<usize>(), total);
            let floors: usize = cs.iter().map(|c| c.minimum.max(1)).sum();
            if total >= floors {
                for (size, c) in sizes.iter().zip(cs.iter()) {
                    assert!(*size >= c.minimum.max(1));
                }
            }
        }
    }
}

#[test]
fn resolve_three_flexible_within_one_of_exact_share() {
    for total in 3..60usize {
        let ratios = [1usize, 2, 4];
        let cs: Vec<Constraint> = ratios.iter().map(|r| flexible(*r, 1)).collect();
        let sizes = ratio_resolve(total, &cs);
        let extra = total - 3;
        for (size, r) in sizes.iter().zip(ratios.iter()) {
            let got = (size - 1) * 7;
            let exact = extra * r;
            assert!(got <= exact + 7 && exact <= got + 7);
        }
    }
}

#[test]
fn clamp_leaves_sizes_that_fit() {
    assert_eq!(clamp_sizes(vec![2, 3], &[1, 1], 5), vec![2, 3]);
    assert_eq!(clamp_sizes(vec![2, 3], &[1, 1], 9), vec![2, 3]);
}

#[test]
fn clamp_reverse_then_forward() {
    assert_eq!(clamp_sizes(vec![5, 5, 5], &[4, 4, 4], 13), vec![5, 4, 4]);
    assert_eq!(clamp_sizes(vec![5, 5, 5], &[4, 4, 4], 10), vec![3, 3, 4]);
    assert_eq!(clamp_sizes(vec![1, 1], &[1, 1], 0), vec![0, 0]);
}

#[test]
fn divide_row_places_children_side_by_side() {
    let left: Layout<Text> = Layout::new();
    let right: Layout<Text> = Layout::new().size(3);
    let parts = divide_row(&[&left, &right], Region::new(2, 1, 10, 4));
    assert_eq!(parts.len(), 2);
    assert_eq!(parts[0].0, Region::new(2, 1, 7, 4));
    assert_eq!(parts[1].0, Region::new(9, 1, 3, 4));
}

#[test]
fn divide_column_places_children_one_below_the_other() {
    let top: Layout<Text> = Layout::new().size(2);
    let bottom: Layout<Text> = Layout::new();
    let parts = divide_column(&[&top, &bottom], Region::new(0, 0, 10, 6));
    assert_eq!(parts[0].0, Region::new(0, 0, 10, 2));
    assert_eq!(parts[1].0, Region::new(0, 2, 10, 4));
    let same = LayoutSplitter::Column.divide(&[&top, &bottom], Region::new(0, 0, 10, 6));
    assert_eq!(same[1].0, parts[1].0);
}

#[test]
fn two_equal_children_split_the_width() {
    let mut root: Layout<Text> = Layout::new();
    root.split_row(vec![
        Layout::from_renderable(Text::new("ab")),
        Layout::from_renderable(Text::new("cd")),
    ]);
    let lines = plain_lines(root.render(10, 2));
    assert_eq!(lines, vec!["ab   cd   ".to_string(), "          ".to_string()]);
}

#[test]
fn hidden_child_gets_no_space() {
    let mut root: Layout<Text> = Layout::new();
    root.split_row(vec![
        Layout::from_renderable(Text::new("left")).name("left"),
        Layout::from_renderable(Text::new("right")).name("right").visible(false),
    ]);
    let visible = root.visible_children();
    assert_eq!(visible.len(), 1);
    let parts = divide_row(&visible, Region::new(0, 0, 20, 1));
    assert_eq!(parts.len(), 1);
    assert_eq!(parts[0].0.width, 20);
    let lines = plain_lines(root.render(20, 1));
    assert_eq!(lines, vec![format!("{:<20}", "left")]);
}

#[test]
fn lookup_and_update_by_name() {
    let mut root: Layout<Text> = Layout::new();
    root.split_column(vec![
        Layout::new().name("header").size(2),
        Layout::new().name("body").ratio(2),
    ]);
    assert!(root.get("body").is_some());
    assert!(root.get("missing").is_none());
    assert!(root.get_mut("missing").is_none());
    root.get_mut("body").unwrap().update(Text::new("stale"));
    root.at_mut("body").update(Text::new("fresh"));
    assert!(root.at("header").get("body").is_none());
    let lines = plain_lines(root.render(12, 4));
    assert_eq!(lines.len(), 4);
    assert_eq!(lines[2], "fresh       ");
    assert_eq!(lines[3], "            ");
    assert_eq!(lines[0], "header (12 \u{2026}");
}

#[test]
fn render_is_repeatable() {
    let mut root: Layout<Text> = Layout::new();
    root.split_row(vec![Layout::new().name("a"), Layout::from_renderable(Text::new("b\nc"))]);
    let first = plain_lines(root.render(9, 3));
    let second = plain_lines(root.render(9, 3));
    assert_eq!(first, second);
}

#[test]
fn leaf_is_exact_for_any_content() {
    for content in ["", "short", "a line that is far too long for the pane", "1\n2\n3\n4\n5\n6", "\u{4f60}\u{597d}\u{4e16}\u{754c}"] {
        let leaf = Layout::from_renderable(Text::new(content));
        for (w, h) in [(0usize, 0usize), (1, 1), (5, 3), (7, 2)] {
            let lines = leaf.render_region(Region::new(0, 0, w, h));
            assert_eq!(lines.len(), h);
            for line in &lines {
                assert_eq!(line.iter().map(Segment::cell_length).sum::<usize>(), w);
            }
        }
    }
}

#[test]
fn leaf_cuts_wide_characters_with_a_space() {
    let leaf = Layout::from_renderable(Text::new("\u{4f60}\u{597d}"));
    let lines = leaf.render_leaf(Region::new(0, 0, 3, 1));
    let text: String = lines[0].iter().map(|s| s.text.as_str()).collect();
    assert_eq!(text, "\u{4f60} ");
}

#[test]
fn hidden_pane_renders_blank() {
    let pane = Layout::from_renderable(Text::new("x")).visible(false);
    let lines = plain_lines(pane.render(3, 2));
    assert_eq!(lines, vec!["   ".to_string(), "   ".to_string()]);
}

#[test]
fn all_children_hidden_falls_back_to_leaf() {
    let mut pane = Layout::from_renderable(Text::new("own"));
    pane.split_row(vec![Layout::new().visible(false)]);
    assert_eq!(plain_lines(pane.render(5, 1)), vec!["own  ".to_string()]);
}

#[test]
fn children_take_precedence_over_content() {
    let mut pane = Layout::from_renderable(Text::new("own"));
    pane.split_row(vec![Layout::from_renderable(Text::new("kid"))]);
    assert_eq!(plain_lines(pane.render(5, 1)), vec!["kid  ".to_string()]);
}

#[test]
fn split_add_and_unsplit() {
    let mut pane: Layout<Text> = Layout::new();
    pane.split(vec![Layout::new().name("a")], LayoutSplitter::Row);
    pane.add_split(vec![Layout::new().name("b")]);
    assert_eq!(pane.visible_children().len(), 2);
    assert!(pane.get("b").is_some());
    pane.unsplit();
    assert!(pane.get("a").is_none());
    assert_eq!(pane.visible_children().len(), 0);
}

#[test]
fn lookup_finds_first_match_depth_first() {
    let mut first: Layout<Text> = Layout::new().name("x");
    first.split_row(vec![Layout::new().name("dup").size(1)]);
    let mut root: Layout<Text> = Layout::new();
    root.split_row(vec![first, Layout::new().name("dup").size(2)]);
    let mut probe: Layout<Text> = Layout::new();
    probe.split_row(vec![Layout::new().name("dup").size(1)]);
    root.get_mut("dup").unwrap().update(Text::new("hit"));
    let lines = plain_lines(root.render(6, 1));
    assert_eq!(lines[0], "hit d\u{2026}");
}

#[test]
fn placeholder_is_centred_and_cut_with_ellipsis() {
    let wide = placeholder_segments(Some("a"), 13, 2);
    assert_eq!(wide.len(), 1);
    assert_eq!(wide[0].text, " a (13 x 2)  ");
    let unnamed = placeholder_segments(None, 9, 1);
    assert_eq!(unnamed[0].text, " (9 x 1) ");
    let narrow = placeholder_segments(Some("sidebar"), 5, 1);
    assert_eq!(narrow[0].text, "side\u{2026}");
    assert_eq!(placeholder_segments(Some("x"), 0, 0)[0].text, "");
}

#[test]
fn blank_lines_are_spaces() {
    let lines = blank_lines(3, 2);
    assert_eq!(lines.len(), 2);
    assert_eq!(lines[0][0].text, "   ");
    assert!(blank_lines(4, 0).is_empty());
}

#[test]
fn merge_orders_by_offset_and_fills_gaps() {
    let region = Region::new(0, 0, 8, 1);
    let right = (Region::new(5, 0, 2, 1), vec![vec![Segment::plain("rr")]]);
    let left = (Region::new(1, 0, 2, 1), vec![vec![Segment::plain("ll")]]);
    let merged = merge_children(region, &[right, left]);
    let text: String = merged[0].iter().map(|s| s.text.as_str()).collect();
    assert_eq!(text, " ll  rr ");
}

#[test]
fn merge_skips_children_outside_the_row() {
    let region = Region::new(0, 0, 4, 2);
    let top = (Region::new(0, 0, 4, 1), vec![vec![Segment::plain("top!")]]);
    let merged = merge_children(region, &[top]);
    let rows: Vec<String> =
        merged.iter().map(|l| l.iter().map(|s| s.text.as_str()).collect()).collect();
    assert_eq!(rows, vec!["top!".to_string(), "    ".to_string()]);
}

#[test]
fn nested_layout_renders_each_pane_in_its_region() {
    let mut body: Layout<Text> = Layout::new().name("body");
    body.split_row(vec![
        Layout::from_renderable(Text::new("L")).size(2),
        Layout::from_renderable(Text::new("R")),
    ]);
    let mut root: Layout<Text> = Layout::new();
    root.split_column(vec![Layout::from_renderable(Text::new("head")).size(1), body]);
    let lines = plain_lines(root.render(6, 3));
    assert_eq!(lines, vec!["head  ".to_string(), "L R   ".to_string(), "      ".to_string()]);
}

struct Stripes;

impl Renderable for Stripes {
    fn render(&self, width: usize, height: usize) -> Vec<Segment> {
        let mut out = Vec::new();
        for row in 0..height + 2 {
            let c = if row % 2 == 0 { "=" } else { "-" };
            out.push(Segment::plain(&c.repeat(width + 3)));
            out.push(Segment::line());
        }
        out
    }
}

#[test]
fn content_of_the_caller_is_cut_to_the_region() {
    let mut root = Layout::new();
    root.split_row(vec![Layout::from_renderable(Stripes), Layout::new().size(1)]);
    let lines = plain_lines(root.render(4, 2));
    assert_eq!(lines, vec!["===\u{2026}".to_string(), "--- ".to_string()]);
}

#[test]
fn callers_can_ask_what_to_warn_of() {
    let tight = [flexible(1, 8), flexible(1, 8), flexible(1, 8)];
    assert!(minimums_exceed(10, &tight));
    assert!(minimums_exceed(23, &tight));
    assert!(!minimums_exceed(24, &tight));
    assert!(!minimums_exceed(0, &[]));
    assert!(minimums_exceed(0, &[flexible(1, 0)]));
    let mut pane: Layout<Text> = Layout::new();
    assert!(!pane.all_children_hidden());
    pane.split_row(vec![Layout::new().visible(false)]);
    assert!(pane.all_children_hidden());
    pane.add_split(vec![Layout::new()]);
    assert!(!pane.all_children_hidden());
}
