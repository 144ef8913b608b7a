use ocean::beach::Beach;
use ocean::color::Color;
use ocean::crab::Crab;
use ocean::diet::Diet;

fn sample_crab(name: &str, speed: u32) -> Crab {
    Crab::new(String::from(name), speed, Color::Red, Diet::Fish)
}

#[test]
fn empty_beach_has_no_crabs() {
    let beach = Beach::new();
    assert_eq!(beach.size(), 0);
    assert!(beach.get_fastest_crab().is_none());
}

#[test]
fn add_crab_appends_and_keeps_indices() {
    let mut beach = Beach::new();
    beach.add_crab(sample_crab("Ann", 10));
    assert_eq!(beach.size(), 1);
    beach.add_crab(sample_crab("Bo", 20));
    assert_eq!(beach.size(), 2);
    beach.add_crab(sample_crab("Cy", 15));
    assert_eq!(beach.size(), 3);
    assert_eq!(beach.get_crab(0).name(), "Ann");
    assert_eq!(beach.get_crab(0).speed(), 10);
    assert_eq!(beach.get_crab(1).name(), "Bo");
    assert_eq!(beach.get_crab(1).speed(), 20);
    assert_eq!(beach.get_crab(2).name(), "Cy");
    assert_eq!(beach.get_crab(2).speed(), 15);
}

#[test]
fn crabs_iterates_in_insertion_order() {
    let mut beach = Beach::new();
    beach.add_crab(sample_crab("Ann", 10));
    beach.add_crab(sample_crab("Bo", 20));
    let names: Vec<&str> = beach.crabs().iter().map(|c| c.name()).collect();
    assert_eq!(names, vec!["Ann", "Bo"]);
}

#[test]
fn fastest_crab_is_bo() {
    let mut beach = Beach::new();
    beach.add_crab(sample_crab("Ann", 10));
    beach.add_crab(sample_crab("Bo", 20));
    let fastest = beach.get_fastest_crab().unwrap();
    assert_eq!(fastest.name(), "Bo");
    assert_eq!(fastest.speed(), 20);
}

#[test]
fn fastest_crab_is_at_least_as_fast_as_all() {
    let mut beach = Beach::new();
    let speeds = [7u32, 3, 19, 19, 2];
    for (i, s) in speeds.iter().enumerate() {
        beach.add_crab(sample_crab(&format!("c{}", i), *s));
    }
    let fastest = beach.get_fastest_crab().unwrap();
    for i in 0..beach.size() {
        assert!(beach.get_crab(i).speed() <= fastest.speed());
    }
    // ties go to the crab added first
    assert_eq!(fastest.name(), "c2");
}

#[test]
fn find_crabs_by_name_returns_matches_in_order() {
    let mut beach = Beach::new();
    beach.add_crab(sample_crab("Ann", 10));
    beach.add_crab(sample_crab("Bo", 20));
    beach.add_crab(sample_crab("Ann", 30));
    let found = beach.find_crabs_by_name("Ann");
    assert_eq!(found.len(), 2);
    assert_eq!(found[0].speed(), 10);
    assert_eq!(found[1].speed(), 30);
    assert!(found.iter().all(|c| c.name() == "Ann"));
    let none = beach.find_crabs_by_name("Zed");
    assert!(none.is_empty());
}

#[test]
fn breed_crabs_appends_child_with_crossed_color() {
    let mut beach = Beach::new();
    beach.add_crab(Crab::new(String::from("Ann"), 10, Color::Red, Diet::Fish));
    beach.add_crab(Crab::new(String::from("Bo"), 20, Color::Blue, Diet::Plants));
    beach.breed_crabs(0, 1, String::from("child"));
    assert_eq!(beach.size(), 3);
    let child = beach.get_crab(2);
    assert_eq!(child.name(), "child");
    assert_eq!(child.speed(), 1);
    assert_eq!(child.color(), Color::cross(Color::Red, Color::Blue));
    assert_eq!(child.color(), Color::Purple);
    // the parents stay untouched
    assert_eq!(beach.get_crab(0).name(), "Ann");
    assert_eq!(beach.get_crab(1).name(), "Bo");
}

#[test]
fn breeding_with_self_is_permitted() {
    let mut beach = Beach::new();
    beach.add_crab(Crab::new(String::from("Ann"), 10, Color::Green, Diet::Fish));
    beach.breed_crabs(0, 0, String::from("clone"));
    assert_eq!(beach.size(), 2);
    assert_eq!(beach.get_crab(1).name(), "clone");
    assert_eq!(beach.get_crab(1).color(), Color::Green);
}

#[test]
fn color_cross_mixes_primaries() {
    assert_eq!(Color::cross(Color::Red, Color::Blue), Color::Purple);
    assert_eq!(Color::cross(Color::Blue, Color::Red), Color::Purple);
    assert_eq!(Color::cross(Color::Blue, Color::Yellow), Color::Green);
    assert_eq!(Color::cross(Color::Yellow, Color::Red), Color::Orange);
    assert_eq!(Color::cross(Color::Red, Color::Red), Color::Red);
    assert_eq!(Color::cross(Color::Purple, Color::Blue), Color::Purple);
}

#[test]
fn random_diet_returns_a_known_diet() {
    for _ in 0..32 {
        let d = Diet::random_diet();
        assert!(d == Diet::Plants || d == Diet::Fish || d == Diet::Shrimp);
    }
}

#[test]
fn crab_speed_lookup_reports_missing_names() {
    let mut beach = Beach::new();
    beach.add_crab(sample_crab("Ann", 10));
    assert_eq!(beach.get_crab_speed_by_name("Ann"), Ok(10));
    assert_eq!(
        beach.get_crab_speed_by_name("Zed"),
        Err(String::from("Crab with name 'Zed' not found"))
    );
}
