use yscale::analyzer::{window_slot, Ring, FFT_SIZE, RING};
use yscale::bass::BassLayout;
use yscale::meters::{stop_flag, Meters};
use yscale::text::{asset_and_type, asset_path, coefficient_tokens, entry_stem, last_segment};

#[test]
fn coefficient_lists() {
    assert_eq!(coefficient_tokens("0.5, -0.25\n1e-3,,\t2"), vec!["0.5", "-0.25", "1e-3", "2"]);
    assert!(coefficient_tokens(" , \n").is_empty());
    assert_eq!(coefficient_tokens("1"), vec!["1"]);
}

#[test]
fn stored_entries() {
    assert_eq!(entry_stem("room.fir", "fir"), Some("room".to_string()));
    assert_eq!(entry_stem("a.b.json", "json"), Some("a.b".to_string()));
    assert_eq!(entry_stem("room.json", "fir"), None);
    assert_eq!(entry_stem(".fir", "fir"), None);
    assert_eq!(entry_stem("nodot", "fir"), None);
    assert_eq!(entry_stem("..", ""), None);
    assert_eq!(entry_stem("x.", ""), Some("x".to_string()));
}

#[test]
fn asset_paths() {
    assert_eq!(asset_path("/"), "index.html");
    assert_eq!(asset_path(""), "index.html");
    assert_eq!(asset_path("//assets/app.js"), "assets/app.js");
}

#[test]
fn file_labels() {
    assert_eq!(last_segment("/music/a/track.wav"), "track.wav");
    assert_eq!(last_segment("track.wav"), "track.wav");
    assert_eq!(last_segment("dir/"), "");
}

#[test]
fn analyzer_window() {
    assert_eq!(window_slot(FFT_SIZE, 0), 0);
    assert_eq!(window_slot(0, 0), RING - FFT_SIZE);
    assert_eq!(window_slot(RING + 5, FFT_SIZE - 1), (RING + 5 - 1) % RING);
    let r = Ring::new();
    for i in 0..10u32 {
        r.push_bits(i);
    }
    let mut out = vec![0u32; FFT_SIZE];
    r.snapshot_bits(&mut out);
    assert_eq!(out[FFT_SIZE - 1], 9);
    assert_eq!(out[FFT_SIZE - 10], 0);
}

#[test]
fn meters_and_stop() {
    let m = Meters::new(3);
    assert_eq!(m.len(), 3);
    m.store_bits(1, 0.5f32.to_bits());
    assert_eq!(m.read_bits(), vec![0, 0.5f32.to_bits(), 0]);
    let stop = stop_flag();
    assert!(!stop.load(std::sync::atomic::Ordering::SeqCst));
}

#[test]
fn bass_layouts() {
    let l = BassLayout::new(3, Some(2));
    assert!(l.is_sub(2));
    assert_eq!(l.mains(), 2);
    let folded = BassLayout::new(2, Some(5));
    assert_eq!(folded.sub_channel, None);
    assert_eq!(folded.mains(), 2);
    assert_eq!(BassLayout::new(0, None).channels, 1);
}

#[test]
fn asset_content_types() {
    assert_eq!(asset_and_type("/"), ("index.html".to_string(), "text/html".to_string()));
    assert_eq!(asset_and_type("//app.js"), ("app.js".to_string(), "text/javascript".to_string()));
    assert_eq!(asset_and_type("/assets/style.css").1, "text/css");
    assert_eq!(asset_and_type("/LICENSE").1, "application/octet-stream");
}
