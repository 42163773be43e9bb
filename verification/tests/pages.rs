use merces_tui::geometry::Rect;
use merces_tui::pages::dashboard::{
    content_height, regions, tree, LARGE_MIN, NARROW_HEIGHT, TREE_SPAN, WIDE_HEIGHT,
};
use merces_tui::pages::scroll::{
    content_area, try_content_area, INTRO_HEIGHT, SCROLLBAR_WIDTH, WALLETS_HEIGHT,
};

#[test]
fn dashboard_heights() {
    assert_eq!(LARGE_MIN, 120);
    assert_eq!(WIDE_HEIGHT, 15 + 4 + 30 + 3 + 20);
    assert_eq!(NARROW_HEIGHT, 15 + 4 + 25 + 30 + 3 + 20 + 20);
    assert_eq!(content_height(120), 72);
    assert_eq!(content_height(119), 117);
    assert_eq!(content_height(0), 117);
    assert_eq!(content_height(u16::MAX), 72);
    assert_eq!(INTRO_HEIGHT, 20);
    assert_eq!(WALLETS_HEIGHT, 75);
}

#[test]
fn content_gives_way_to_the_scrollbar() {
    assert_eq!(SCROLLBAR_WIDTH, 2);
    assert_eq!(content_area(100, 30, 72), Rect::new(0, 0, 98, 72));
    assert_eq!(content_area(100, 72, 72), Rect::new(0, 0, 100, 72));
    assert_eq!(content_area(100, 90, 72), Rect::new(0, 0, 100, 72));
    assert_eq!(content_area(2, 0, 20), Rect::new(0, 0, 0, 20));
    assert_eq!(content_area(1, 20, 20), Rect::new(0, 0, 1, 20));
}

#[test]
fn content_in_a_view_too_narrow_for_the_scrollbar() {
    assert_eq!(try_content_area(1, 10, 20), None);
    assert_eq!(try_content_area(0, 10, 20), None);
    assert_eq!(try_content_area(0, 20, 20), Some(Rect::new(0, 0, 0, 20)));
    assert_eq!(try_content_area(2, 10, 20), Some(Rect::new(0, 0, 0, 20)));
    assert_eq!(try_content_area(80, 10, 75), Some(Rect::new(0, 0, 78, 75)));
}

#[test]
fn wide_dashboard_regions() {
    let area = Rect::new(0, 0, 122, 72);
    let layout = tree(area.width).try_build(area).unwrap();
    assert_eq!(layout.len(), 10);
    assert_eq!(layout.get("txs_graph"), Some(Rect::new(0, 0, 122, 15)));
    assert_eq!(layout.get("net_stats_title"), Some(Rect::new(0, 15, 122, 4)));
    assert_eq!(layout.get("net_stats_gauge"), Some(Rect::new(0, 19, 30, 30)));
    assert_eq!(layout.get("net_stats_graph"), Some(Rect::new(31, 19, 60, 30)));
    assert_eq!(layout.get("net_stats_values_0"), Some(Rect::new(92, 19, 30, 10)));
    assert_eq!(layout.get("net_stats_values_1"), Some(Rect::new(92, 29, 30, 10)));
    assert_eq!(layout.get("net_stats_values_2"), Some(Rect::new(92, 39, 30, 10)));
    assert_eq!(layout.get("live_logs_title"), Some(Rect::new(0, 49, 122, 3)));
    assert_eq!(layout.get("txs_logs"), Some(Rect::new(0, 52, 61, 20)));
    assert_eq!(layout.get("mpc_logs"), Some(Rect::new(62, 52, 60, 20)));
}

#[test]
fn narrow_dashboard_regions() {
    let area = Rect::new(0, 0, 80, 117);
    let layout = tree(area.width).try_build(area).unwrap();
    assert_eq!(layout.len(), 10);
    assert_eq!(layout.get("txs_graph"), Some(Rect::new(0, 0, 80, 15)));
    assert_eq!(layout.get("net_stats_title"), Some(Rect::new(0, 15, 80, 4)));
    assert_eq!(layout.get("net_stats_graph"), Some(Rect::new(0, 19, 80, 25)));
    assert_eq!(layout.get("net_stats_gauge"), Some(Rect::new(0, 44, 40, 30)));
    assert_eq!(layout.get("net_stats_values_0"), Some(Rect::new(41, 44, 39, 10)));
    assert_eq!(layout.get("net_stats_values_1"), Some(Rect::new(41, 54, 39, 10)));
    assert_eq!(layout.get("net_stats_values_2"), Some(Rect::new(41, 64, 39, 10)));
    assert_eq!(layout.get("live_logs_title"), Some(Rect::new(0, 74, 80, 3)));
    assert_eq!(layout.get("txs_logs"), Some(Rect::new(0, 77, 80, 20)));
    assert_eq!(layout.get("mpc_logs"), Some(Rect::new(0, 97, 80, 20)));
}

#[test]
fn the_dashboard_changes_shape_at_its_least_wide_width() {
    let at = Rect::new(0, 0, 120, 72);
    let below = Rect::new(0, 0, 119, 117);
    let wide = tree(at.width).try_build(at).unwrap();
    let narrow = tree(below.width).try_build(below).unwrap();
    assert_eq!(wide.get("net_stats_graph").unwrap().y, 19);
    assert_eq!(wide.get("net_stats_gauge").unwrap().y, 19);
    assert_eq!(narrow.get("net_stats_graph").unwrap().y, 19);
    assert_eq!(narrow.get("net_stats_gauge").unwrap().y, 44);
    assert!(tree(120).fits(at));
    assert!(tree(119).fits(below));
}

#[test]
fn dashboard_regions_in_the_content_buffer() {
    let wide = regions(150, 72);
    assert_eq!(wide.len(), 10);
    assert_eq!(wide.get("txs_graph"), Some(Rect::new(0, 0, 150, 15)));
    assert_eq!(wide.get("net_stats_gauge"), Some(Rect::new(0, 19, 37, 30)));
    assert_eq!(wide.get("net_stats_graph"), Some(Rect::new(38, 19, 74, 30)));
    assert_eq!(wide.get("net_stats_values_2"), Some(Rect::new(113, 39, 37, 10)));
    let narrow = regions(60, 117);
    assert_eq!(narrow.len(), 10);
    assert_eq!(narrow.get("mpc_logs"), Some(Rect::new(0, 97, 60, 20)));
    // a content that is lower than the rows ask for: the fixed rows keep
    // their heights and run past it
    let short = regions(60, 10);
    assert_eq!(short.get("txs_graph"), Some(Rect::new(0, 0, 60, 15)));
    assert_eq!(short.get("mpc_logs"), Some(Rect::new(0, 97, 60, 20)));
    let none = regions(0, 0);
    assert_eq!(none.get("txs_logs"), Some(Rect::new(0, 77, 0, 20)));
}

#[test]
fn the_dashboard_stays_within_its_span() {
    assert_eq!(TREE_SPAN, 13 * 131_070);
    assert_eq!(tree(120).root.span_of(), Some(12 * 131_070));
    assert_eq!(tree(119).root.span_of(), Some(13 * 131_070));
    assert!(tree(119).fits(Rect::new(u64::MAX - TREE_SPAN, u64::MAX - TREE_SPAN, 1, 1)));
}
