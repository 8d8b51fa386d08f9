use bebasin::layout::{centered_columns, centered_rect, main_chunks, Rect};
use bebasin::os::{hosts_backup_path, hosts_backup_path_for, hosts_path, hosts_path_for};
use bebasin::updater::{hosts_exists, is_backed, is_installed};
use bebasin::ui::{count_line_breaks, cursor_at, input_cursor, row_height, status_label};

#[test]
fn centered_popup() {
    let area = Rect { x: 0, y: 0, width: 100, height: 50 };
    assert_eq!(centered_rect(60, 20, area), Some(Rect { x: 20, y: 20, width: 60, height: 10 }));
    let band = Rect { x: 0, y: 20, width: 100, height: 10 };
    assert_eq!(centered_columns(60, band), Some(Rect { x: 20, y: 20, width: 60, height: 10 }));
}

#[test]
fn centered_popup_refuses_overflow() {
    let area = Rect { x: 0, y: 0, width: 2000, height: 50 };
    assert_eq!(centered_rect(60, 20, area), None);
    let tall = Rect { x: 0, y: 0, width: 10, height: 4000 };
    assert_eq!(centered_rect(60, 20, tall), None);
    let past_edge = Rect { x: 65000, y: 0, width: 1000, height: 10 };
    assert_eq!(centered_rect(60, 20, past_edge), None);
    let low_band = Rect { x: 0, y: 65530, width: 10, height: 10 };
    assert_eq!(centered_columns(60, low_band), None);
}

#[test]
fn main_screen_rows() {
    assert!(main_chunks(Rect { x: 60000, y: 0, width: 10000, height: 20 }).is_none());
    assert!(main_chunks(Rect { x: 65534, y: 0, width: 1, height: 1 }).is_some());
    let chunks = main_chunks(Rect { x: 0, y: 0, width: 80, height: 24 }).unwrap();
    assert_eq!(chunks.len(), 3);
    assert_eq!(chunks[0], Rect { x: 3, y: 3, width: 74, height: 10 });
    assert_eq!(chunks[1], Rect { x: 3, y: 13, width: 74, height: 4 });
    assert_eq!(chunks[2], Rect { x: 3, y: 17, width: 74, height: 4 });
}

#[test]
fn status_words() {
    assert_eq!(status_label(true), "Installed");
    assert_eq!(status_label(false), "Not Installed");
}

#[test]
fn row_heights() {
    assert_eq!(count_line_breaks("a\nb\n"), 2);
    assert_eq!(row_height(&vec!["Install"]), 1);
    assert_eq!(row_height(&vec!["a\nb", "c\nd\ne"]), 3);
    assert_eq!(row_height(&vec![]), 1);
}

#[test]
fn cursor_follows_typed_text() {
    let area = Rect { x: 2, y: 5, width: 40, height: 4 };
    assert_eq!(input_cursor(area, &String::from("abc")), Some((6, 6)));
    assert_eq!(input_cursor(area, &String::from("日本")), Some((7, 6)));
    assert_eq!(input_cursor(area, &String::new()), Some((3, 6)));
    assert_eq!(cursor_at(area, 10), (13, 6));
    let edge = Rect { x: 65534, y: 0, width: 1, height: 1 };
    assert_eq!(input_cursor(edge, &String::from("a")), None);
}

#[test]
fn platform_paths() {
    assert_eq!(hosts_path(), "/etc/hosts");
    assert_eq!(hosts_backup_path(), "/etc/hosts.bebasin-backup");
}

#[test]
fn disk_checks_follow_the_files() {
    assert_eq!(hosts_exists(), std::path::Path::new("/etc/hosts").exists());
    assert_eq!(is_backed(), std::path::Path::new("/etc/hosts.bebasin-backup").exists());
    assert_eq!(is_installed(), is_backed());
}

#[test]
fn boxes_stay_inside_their_area() {
    for (w, h) in [(37u16, 13u16), (80, 24), (1, 1), (0, 0), (200, 60)] {
        let r = Rect { x: 5, y: 7, width: w, height: h };
        let c = centered_rect(61, 23, r).unwrap();
        assert!(c.x + c.width <= r.x + r.width);
        assert!(c.y + c.height <= r.y + r.height);
        let chunks = main_chunks(r).unwrap();
        for chunk in &chunks {
            if w >= 6 && h >= 6 {
                assert_eq!((chunk.x, chunk.width), (r.x + 3, r.width - 6));
                assert!(chunk.y + chunk.height <= r.y + r.height - 3);
            }
        }
        if w >= 6 && h >= 6 {
            assert_eq!(chunks[2].y + chunks[2].height, r.y + r.height - 3);
        }
    }
}

#[test]
fn paths_for_each_platform() {
    assert_eq!(hosts_path_for(false), "/etc/hosts");
    assert_eq!(hosts_path_for(true), "C:\\Windows\\System32\\drivers\\etc\\hosts");
    assert_eq!(hosts_backup_path_for(false), "/etc/hosts.bebasin-backup");
    assert_eq!(hosts_backup_path_for(true), "C:\\Windows\\System32\\drivers\\etc\\hosts.bebasin-backup");
}
