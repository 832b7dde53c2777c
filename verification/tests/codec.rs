use ranked_stats::events_reader::{Event, EventsReader, Flag, MapLayout, MapTile, Powerup, SplatEvent, Team};

#[test]
fn read_bool_walks_bits_msb_first() {
    let mut r = EventsReader::new(vec![0b1010_0000]);
    assert!(r.read_bool());
    assert!(!r.read_bool());
    assert!(r.read_bool());
    assert!(!r.read_bool());
}

#[test]
fn read_bool_past_end_is_false() {
    let mut r = EventsReader::new(Vec::new());
    assert!(!r.read_bool());
    assert!(!r.read_bool());
}

#[test]
fn read_fixed_reads_msb_first() {
    let mut r = EventsReader::new(vec![0b1011_0000]);
    assert_eq!(r.read_fixed(4), 0b1011);
}

#[test]
fn tally_counts_ones_up_to_zero() {
    let mut r = EventsReader::new(vec![0b1110_0000]);
    assert_eq!(r.read_tally(), 3);
}

#[test]
fn tally_of_seven_ones() {
    let mut r = EventsReader::new(vec![0b1111_1110]);
    assert_eq!(r.read_tally(), 7);
}

#[test]
fn tally_of_zero() {
    let mut r = EventsReader::new(vec![0b0000_0000]);
    assert_eq!(r.read_tally(), 0);
}

#[test]
fn footer_smallest_class_reads_to_byte_boundary() {
    // Selector 0 leaves six free bits to the byte boundary: 0b000101 = 5.
    let mut r = EventsReader::new(vec![0b0000_0101]);
    assert_eq!(r.read_footer(), 5);
}

#[test]
fn footer_class_ranges_are_adjacent() {
    // The largest value of size class 0 at this alignment...
    let mut r = EventsReader::new(vec![0b0011_1111]);
    assert_eq!(r.read_footer(), 63);
    // ...is exactly one below the smallest value of size class 1.
    let mut r2 = EventsReader::new(vec![0b0100_0000, 0x00]);
    assert_eq!(r2.read_footer(), 64);
}

#[test]
fn conversions_match_the_log_codes() {
    assert_eq!(Team::from_usize(0), Some(Team::Neutral));
    assert_eq!(Team::from_usize(1), Some(Team::Red));
    assert_eq!(Team::from_usize(2), Some(Team::Blue));
    assert_eq!(Team::from_usize(3), None);
    assert_eq!(Flag::from_usize(5), Some(Flag::Temporary));
    assert_eq!(Flag::from_usize(6), None);
    assert_eq!(Powerup::from_usize(4), Some(Powerup::TagPro));
    assert_eq!(Powerup::from_usize(3), None);
    assert_eq!(MapTile::from_usize(211), Some(MapTile::MarsBall));
    assert_eq!(MapTile::from_usize(240), None);
}

#[test]
fn empty_buffer_decodes_to_one_end_event() {
    let mut r = EventsReader::new(Vec::new());
    let events = r.player_events(Team::Red, 28800);
    assert_eq!(events.len(), 1);
    assert_eq!(events[0].event_type, Event::End);
    assert_eq!(events[0].time, 28800);
    assert_eq!(events[0].team, Team::Red);
    assert_eq!(events[0].flag, Flag::NoFlag);
}

#[test]
fn one_tick_with_one_return() {
    // One tick: no team change, no pop, one return, nothing else, and a
    // one-tick time delta.
    let mut r = EventsReader::new(vec![0b0010_0000, 0b0000_0000]);
    let events = r.player_events(Team::Red, 100);
    assert_eq!(events.len(), 2);
    assert_eq!(events[0].event_type, Event::Return);
    assert_eq!(events[0].time, 1);
    assert_eq!(events[0].team, Team::Red);
    assert_eq!(events[1].event_type, Event::End);
    assert_eq!(events[1].time, 100);
}

#[test]
fn one_tick_with_a_grab_selects_the_flag() {
    // One tick: a grab with the kept-flag selector picking the opponent
    // flag.
    let mut r = EventsReader::new(vec![0b0000_1000, 0b0000_0000]);
    let events = r.player_events(Team::Red, 100);
    assert_eq!(events.len(), 2);
    assert_eq!(events[0].event_type, Event::Grab);
    assert_eq!(events[0].flag, Flag::Opponent);
    assert_eq!(events[1].event_type, Event::End);
}

#[test]
fn decode_is_deterministic() {
    let data = vec![0b0010_0000, 0b0000_0000, 0xA7, 0x31];
    let mut r1 = EventsReader::new(data.clone());
    let mut r2 = EventsReader::new(data);
    let e1 = r1.player_events(Team::Blue, 500);
    let e2 = r2.player_events(Team::Blue, 500);
    assert_eq!(e1.len(), e2.len());
    for k in 0..e1.len() {
        assert_eq!(e1[k], e2[k]);
    }
}

#[test]
fn every_stream_ends_with_exactly_one_end() {
    let data = vec![0x5B, 0xC2, 0x11, 0x90];
    let mut r = EventsReader::new(data);
    let events = r.player_events(Team::Red, 777);
    assert!(events.len() >= 1);
    assert_eq!(events[events.len() - 1].event_type, Event::End);
    assert_eq!(events[events.len() - 1].time, 777);
    for k in 0..events.len() - 1 {
        assert_ne!(events[k].event_type, Event::End);
    }
}

#[test]
fn grabs_are_separated_by_flag_releases() {
    let data = vec![0x12, 0x34, 0x56, 0x78, 0x9A];
    let mut r = EventsReader::new(data);
    let events = r.player_events(Team::Blue, 4000);
    for i in 0..events.len() {
        for j in (i + 1)..events.len() {
            if events[i].event_type == Event::Grab && events[j].event_type == Event::Grab {
                let mut cleared = false;
                for k in (i + 1)..j {
                    match events[k].event_type {
                        Event::Capture | Event::Drop | Event::Switch | Event::Quit => {
                            cleared = true;
                        }
                        _ => {}
                    }
                }
                assert!(cleared);
            }
        }
    }
}

#[test]
fn from_base64_decodes_and_rejects() {
    // "AA==" is the single zero byte.
    let mut r = EventsReader::from_base64("AA==").unwrap();
    let events = r.player_events(Team::Red, 50);
    let mut r2 = EventsReader::new(vec![0u8]);
    let events2 = r2.player_events(Team::Red, 50);
    assert_eq!(events.len(), events2.len());
    for k in 0..events.len() {
        assert_eq!(events[k], events2[k]);
    }
    assert!(EventsReader::from_base64("not base64!").is_none());
}

#[test]
fn map_layout_decodes_runs_and_rows() {
    // Two explicit empty tiles, then the row is padded to a boundary.
    let mut r = EventsReader::new(vec![0x00, 0x00]);
    let ml = r.map_layout(2).unwrap();
    assert_eq!(ml.layout.len(), 3);
    assert_eq!(ml.width, 2);
    assert_eq!(ml.height, 1);
    assert_eq!(ml.tile_at(0, 0), MapTile::Empty);
}

#[test]
fn map_layout_rejects_unknown_tiles() {
    // A 6-bit selector of 32 expands to no known tile code.
    let mut r = EventsReader::new(vec![0b1000_0000, 0x00]);
    assert!(r.map_layout(2).is_none());
}

#[test]
fn truncated_buffer_still_closes_with_end() {
    // A single byte asking for more fields than it holds.
    let mut r = EventsReader::new(vec![0b1111_1111]);
    let events = r.player_events(Team::Red, 60);
    assert_eq!(events[events.len() - 1].event_type, Event::End);
    assert_eq!(events[events.len() - 1].time, 60);
}

#[test]
fn splat_events_decode_grouped_coordinates() {
    // A 4-by-4 grid stores 8 bits per axis with a 68-pixel centering
    // offset. One splat in the first second: tally 1, x = 78, y = 73.
    let layout = MapLayout { layout: Vec::new(), width: 4, height: 4 };
    let mut r = EventsReader::new(vec![
        0b1001_0011, 0b1001_0010, 0b0100_0000,
    ]);
    let splats = r.splat_events(layout);
    assert_eq!(splats.len(), 1);
    assert_eq!(splats[0], SplatEvent { x: 10, y: 5, time: 1 });
}

#[test]
fn coordinate_widths_cover_the_grid() {
    let r = EventsReader::new(Vec::new());
    // A 4-tile axis: the highest pixel coordinate 159 takes 8 bits, and
    // the unused half of the 256-pixel cover is 68 on each side.
    assert_eq!(r.bits_used_to_represent_coordinate(4), (8, 68));
}
