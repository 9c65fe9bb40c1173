use gd_icon_renderer::animation::copy_frame;
use gd_icon_renderer::animation::sort_by_z;
use gd_icon_renderer::assets::AnimationSprite;
use gd_icon_renderer::assets::Animations;

fn frame(texture: &str, z: i32) -> AnimationSprite {
    AnimationSprite {
        texture: texture.to_string(),
        position: (1, 2),
        scale: (1000, 1000),
        rotation: 0,
        flipped: (false, true),
        z,
    }
}

fn names(frames: &Vec<AnimationSprite>) -> Vec<String> {
    frames.iter().map(|f| f.texture.clone()).collect()
}

#[test]
fn sort_by_z_is_ascending_and_stable() {
    let frames = vec![
        frame("a", 3),
        frame("b", 1),
        frame("c", 3),
        frame("d", -2),
        frame("e", 1),
        frame("f", 3),
    ];
    let sorted = sort_by_z(&frames);
    assert_eq!(names(&sorted), vec!["d", "b", "e", "a", "c", "f"]);
    assert_eq!(names(&frames), vec!["a", "b", "c", "d", "e", "f"]);
}

#[test]
fn sort_by_z_of_nothing_and_of_one() {
    assert!(sort_by_z(&Vec::new()).is_empty());
    assert_eq!(names(&sort_by_z(&vec![frame("x", 9)])), vec!["x"]);
}

#[test]
fn sort_by_z_keeps_sorted_frames() {
    let frames = vec![frame("a", i32::MIN), frame("b", 0), frame("c", 0), frame("d", i32::MAX)];
    assert_eq!(names(&sort_by_z(&frames)), vec!["a", "b", "c", "d"]);
}

#[test]
fn copy_frame_copies_every_field() {
    let f = frame("leg", 4);
    let c = copy_frame(&f);
    assert_eq!(c.texture, "leg");
    assert_eq!(c.position, (1, 2));
    assert_eq!(c.scale, (1000, 1000));
    assert_eq!(c.rotation, 0);
    assert_eq!(c.flipped, (false, true));
    assert_eq!(c.z, 4);
}

#[test]
fn idle_pose_is_the_robots_before_the_spiders() {
    let both = Animations {
        tracks: vec![
            ("Spider_idle_001.png".to_string(), vec![frame("s", 0)]),
            ("Robot_run_001.png".to_string(), vec![]),
            ("Robot_idle_001.png".to_string(), vec![frame("r", 0)]),
        ],
    };
    assert_eq!(both.find_idle(), Some(2));
    assert_eq!(both.find("Robot_run_001.png"), Some(1));
    let spider = Animations { tracks: vec![("Spider_idle_001.png".to_string(), vec![])] };
    assert_eq!(spider.find_idle(), Some(0));
    let none = Animations { tracks: vec![("Spider_idle_002.png".to_string(), vec![])] };
    assert_eq!(none.find_idle(), None);
}

#[test]
fn of_two_poses_of_one_name_the_later_counts() {
    let anims = Animations {
        tracks: vec![
            ("Robot_idle_001.png".to_string(), vec![frame("old", 0)]),
            ("Robot_idle_001.png".to_string(), vec![frame("new", 0)]),
        ],
    };
    assert_eq!(anims.find_idle(), Some(1));
}
