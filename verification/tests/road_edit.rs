use parking_sim::network::{BufferType, LaneType};
use parking_sim::road_edit::{maybe_add_bike_lanes, quick_change, Direction, EditRoad, LaneSpec};

fn road(lt: &str, dir: &str) -> EditRoad {
    EditRoad {
        lanes_ltr: lt
            .chars()
            .zip(dir.chars())
            .map(|(lt, dir)| LaneSpec {
                lt: LaneType::from_char(lt),
                dir: if dir == '^' { Direction::Fwd } else { Direction::Back },
                // Dummy
                width: 0,
            })
            .collect(),
    }
}

#[test]
fn test_maybe_add_bike_lanes() {
    let with_buffers = true;
    let no_buffers = false;

    let mut ok = true;
    for (description, url, input_lt, input_dir, buffer, expected_lt, expected_dir) in vec![
        (
            "Two-way with parking, adding buffers",
            "https://www.openstreetmap.org/way/40790122",
            "spddps",
            "vvv^^^",
            with_buffers,
            "sb|dd|bs",
            "vvvv^^^^",
        ),
        (
            "Two-way with parking, no buffers",
            "https://www.openstreetmap.org/way/40790122",
            "spddps",
            "vvv^^^",
            no_buffers,
            "sbddbs",
            "vvv^^^",
        ),
        (
            "Two-way without parking but many lanes",
            "https://www.openstreetmap.org/way/394737309",
            "sddddds",
            "vvv^^^^",
            with_buffers,
            "sb|ddd|bs",
            "vvvv^^^^^",
        ),
        (
            "One-way with parking on both sides",
            "https://www.openstreetmap.org/way/559660378",
            "spddps",
            "vv^^^^",
            with_buffers,
            "spdd|bs",
            "vv^^^^^",
        ),
    ] {
        let input = road(input_lt, input_dir);
        let mut actual_output = input.clone();
        maybe_add_bike_lanes(
            &mut actual_output,
            if buffer { Some(BufferType::FlexPosts) } else { None },
            20_000,
            15_000,
        );
        let actual_lt: String = actual_output.lanes_ltr.iter().map(|s| s.lt.to_char()).collect();
        let actual_dir: String = actual_output
            .lanes_ltr
            .iter()
            .map(|s| if s.dir == Direction::Fwd { '^' } else { 'v' })
            .collect();

        if actual_lt != expected_lt || actual_dir != expected_dir {
            ok = false;
            println!("{} (example from {})", description, url);
            println!("Input:");
            println!("    {}", input_lt);
            println!("    {}", input_dir);
            println!("Got:");
            println!("    {}", actual_lt);
            println!("    {}", actual_dir);
            println!("Expected:");
            println!("    {}", expected_lt);
            println!("    {}", expected_dir);
            println!();
        }
    }
    assert!(ok);
}

#[test]
fn new_lanes_get_the_widths_given() {
    let mut r = road("spddps", "vvv^^^");
    maybe_add_bike_lanes(&mut r, Some(BufferType::Planters), 20_000, 15_000);
    assert_eq!(
        r.lanes_ltr[1],
        LaneSpec { lt: LaneType::Biking, dir: Direction::Back, width: 20_000 }
    );
    assert_eq!(
        r.lanes_ltr[2],
        LaneSpec {
            lt: LaneType::Buffer(BufferType::Planters),
            dir: Direction::Back,
            width: 15_000
        }
    );
    assert_eq!(
        r.lanes_ltr[6],
        LaneSpec { lt: LaneType::Biking, dir: Direction::Fwd, width: 20_000 }
    );
}

#[test]
fn a_road_without_room_stays_as_it_is() {
    let r = road("sdds", "vv^^");
    assert!(quick_change(&r, None, 20_000, 15_000).is_none());
    let r = road("spps", "vv^^");
    assert!(quick_change(&r, Some(BufferType::Stripes), 20_000, 15_000).is_none());
    let r = road("spdds", "vvv^^");
    let new = quick_change(&r, None, 20_000, 15_000).unwrap();
    let lt: String = new.lanes_ltr.iter().map(|s| s.lt.to_char()).collect();
    assert_eq!(lt, "sbdds");
}
