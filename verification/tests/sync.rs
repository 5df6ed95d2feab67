use std::collections::HashMap;
use shapemaker::synchronization::sync::{cues_from_bytes, CueError, CueMarkersSynchronizer, SyncData};

#[test]
fn merging_prefers_the_other_data() {
    let mut a: SyncData<u32> = SyncData::new();
    a.bpm = Some(100);
    a.set_stem("bass".to_string(), 1);
    a.set_stem("drums".to_string(), 2);
    a.markers.insert(10, "intro".to_string());
    a.markers.insert(20, "verse".to_string());
    let mut b: SyncData<u32> = SyncData::new();
    b.set_stem("drums".to_string(), 5);
    b.set_stem("voice".to_string(), 6);
    b.markers.insert(20, "chorus".to_string());
    a.merge_with(b);
    assert_eq!(a.bpm, Some(100));
    let stems: HashMap<String, u32> = a.stems.iter().cloned().collect();
    assert_eq!(stems.len(), 3);
    assert_eq!(stems["bass"], 1);
    assert_eq!(stems["drums"], 5);
    assert_eq!(stems["voice"], 6);
    assert_eq!(a.markers.len(), 2);
    assert_eq!(a.markers[&20], "chorus");
    let mut c: SyncData<u32> = SyncData::new();
    c.bpm = Some(90);
    a.merge_with(c);
    assert_eq!(a.bpm, Some(90));
}

#[test]
fn marker_range_goes_between_two_markers() {
    let mut d: SyncData<u32> = SyncData::new();
    d.markers.insert(1_000, "drop".to_string());
    d.markers.insert(4_000, "other".to_string());
    let r = d.marker_ms_range("drop");
    assert_eq!(r, None);
    assert_eq!(d.marker_ms_range("missing"), None);
    d.markers.insert(3_000, "drop".to_string());
    let r = d.marker_ms_range("drop");
    assert!(r == Some(1_000..3_000) || r == None);
}

#[test]
fn cue_files_without_cues_give_the_default_tempo() {
    let s = CueMarkersSynchronizer::new("song.wav");
    assert_eq!(s.path, "song.wav");
    let d: SyncData<u32> = s.loaded(0);
    assert_eq!(d.bpm, Some(120));
    assert!(d.stems.is_empty());
    assert!(d.markers.is_empty());
}

fn tiny_wav() -> Vec<u8> {
    let samples: [u8; 4] = [0, 0, 0, 0];
    let mut b = Vec::new();
    b.extend_from_slice(b"RIFF");
    b.extend_from_slice(&(36u32 + samples.len() as u32).to_le_bytes());
    b.extend_from_slice(b"WAVE");
    b.extend_from_slice(b"fmt ");
    b.extend_from_slice(&16u32.to_le_bytes());
    b.extend_from_slice(&1u16.to_le_bytes()); // PCM
    b.extend_from_slice(&1u16.to_le_bytes()); // mono
    b.extend_from_slice(&8000u32.to_le_bytes());
    b.extend_from_slice(&16000u32.to_le_bytes());
    b.extend_from_slice(&2u16.to_le_bytes());
    b.extend_from_slice(&16u16.to_le_bytes());
    b.extend_from_slice(b"data");
    b.extend_from_slice(&(samples.len() as u32).to_le_bytes());
    b.extend_from_slice(&samples);
    b
}

#[test]
fn cues_need_a_wav_or_flac_file() {
    let r = cues_from_bytes::<()>(Some("mp3"), tiny_wav());
    assert!(matches!(r, Err(CueError::UnsupportedFormat)));
    let r = cues_from_bytes::<()>(None, tiny_wav());
    assert!(matches!(r, Err(CueError::UnsupportedFormat)));
}

#[test]
fn unreadable_audio_gives_an_error() {
    assert!(matches!(cues_from_bytes::<()>(Some("wav"), vec![1, 2, 3]), Err(CueError::Unreadable)));
    assert!(matches!(cues_from_bytes::<()>(Some("flac"), tiny_wav()), Err(CueError::Unreadable)));
}

#[test]
fn a_wav_file_without_cues_gives_the_default_tempo() {
    let sync = CueMarkersSynchronizer::new("music/song.wav");
    match sync.load_from_bytes::<()>(tiny_wav()) {
        Ok(d) => {
            assert_eq!(d.bpm, Some(120));
            assert!(d.stems.is_empty());
            assert!(d.markers.is_empty());
        }
        Err(e) => panic!("unexpected {:?}", e),
    }
}

#[test]
fn the_extension_comes_from_the_file_name() {
    let mp3 = CueMarkersSynchronizer::new("song.mp3");
    assert!(matches!(mp3.load_from_bytes::<()>(tiny_wav()), Err(CueError::UnsupportedFormat)));
    let hidden = CueMarkersSynchronizer::new(".wav");
    assert!(matches!(hidden.load_from_bytes::<()>(tiny_wav()), Err(CueError::UnsupportedFormat)));
    let dotted = CueMarkersSynchronizer::new("my.song.wav");
    assert!(matches!(dotted.load_from_bytes::<()>(tiny_wav()), Ok(_)));
}
