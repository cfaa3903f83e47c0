use evfs::deflate::FileEntry;
use evfs::gif_player::GifClock;
use evfs::ui::properties::{size_unit, tab_rows, PropValue, Tab};

fn text(v: &PropValue) -> &str {
    match v {
        PropValue::Text(t) => t.as_str(),
        other => panic!("not text: {:?}", other),
    }
}

#[test]
fn size_units() {
    assert_eq!(size_unit(0), 0);
    assert_eq!(size_unit(1023), 0);
    assert_eq!(size_unit(1024), 1);
    assert_eq!(size_unit(1048575), 1);
    assert_eq!(size_unit(1048576), 2);
    assert_eq!(size_unit(1099511627775), 3);
    assert_eq!(size_unit(1099511627776), 4);
    assert_eq!(size_unit(u64::MAX), 4);
}

#[test]
fn general_and_storage_rows() {
    let f = FileEntry { id: [0; 16], path: "docs/plan.v2.md".to_string(), offset: 37, stored_size: 120, original_size: 4096, compressed: true };
    let g = tab_rows(Tab::General, &f);
    let labels: Vec<&str> = g.iter().map(|r| r.0).collect();
    assert_eq!(labels, vec!["Name:", "Path:", "Type:", "Size:", "Size (bytes):"]);
    assert_eq!(text(&g[0].1), "plan.v2.md");
    assert_eq!(text(&g[2].1), "md");
    assert!(matches!(g[3].1, PropValue::Size(4096)));
    assert_eq!(text(&g[4].1), "4096");
    let s = tab_rows(Tab::Storage, &f);
    assert_eq!(s.len(), 7);
    assert_eq!(text(&s[0].1), "Yes");
    assert!(matches!(s[5].1, PropValue::SavedRatio { stored: 120, original: 4096 }));
    assert_eq!(text(&s[6].1), "37");
    let plain = FileEntry { compressed: false, ..f.clone() };
    assert_eq!(tab_rows(Tab::Storage, &plain).len(), 6);
    let noext = FileEntry { path: "Makefile".to_string(), ..f };
    assert_eq!(text(&tab_rows(Tab::General, &noext)[2].1), "(none)");
    assert_eq!(tab_rows(Tab::Security, &noext).len(), 7);
}

#[test]
fn uuid_row_matches_uuid_crate() {
    let id = [0xa1, 0xa2, 0xa3, 0xa4, 0xb1, 0xb2, 0xc1, 0xc2, 0xd1, 0xd2, 0xd3, 0xd4, 0xd5, 0xd6, 0xd7, 0xd8];
    let f = FileEntry { id, path: "x".to_string(), offset: 0, stored_size: 0, original_size: 0, compressed: false };
    let rows = tab_rows(Tab::Advanced, &f);
    assert_eq!(text(&rows[0].1), "a4a3a2a1-b2b1-c2c1-d1d2-d3d4d5d6d7d8");
    assert_eq!(text(&rows[0].1), uuid::Uuid::from_bytes_le(id).to_string());
    assert_eq!(text(&rows[1].1), "EVFS v2");
    let g = FileEntry { id: [0x0f; 16], ..f };
    assert_eq!(text(&tab_rows(Tab::Advanced, &g)[0].1), uuid::Uuid::from_bytes_le([0x0f; 16]).to_string());
}

#[test]
fn gif_plays_once() {
    let delays = vec![100u128, 50, 70];
    let mut c = GifClock::new();
    assert_eq!(c.step(&delays, 20), Some(80));
    assert_eq!(c.current_frame, 0);
    assert_eq!(c.step(&delays, 100), Some(50));
    assert_eq!(c.current_frame, 1);
    assert_eq!(c.step(&delays, 60), Some(70));
    assert_eq!(c.step(&delays, 70), None);
    assert_eq!(c.current_frame, 2);
    assert!(!c.is_playing);
    assert_eq!(c.step(&delays, 1000), None);
}
