use ocean::beach::Beach;
use ocean::clans::Clan;
use ocean::clans::ClanSystem;
use ocean::color::Color;
use ocean::crab::Crab;
use ocean::diet::Diet;

fn sample_crab(name: &str, speed: u32) -> Crab {
    Crab::new(String::from(name), speed, Color::Blue, Diet::Shrimp)
}

#[test]
fn empty_registry_has_no_clans() {
    let clans = ClanSystem::new();
    assert_eq!(clans.get_clan_count(), 0);
    assert!(clans.get_largest_clan_id().is_none());
}

#[test]
fn unknown_clan_yields_empty_member_list() {
    let clans = ClanSystem::new();
    let names = clans.get_clan_member_names("none");
    assert!(names.is_empty());
    assert_eq!(clans.get_clan_member_count("none"), 0);
}

#[test]
fn add_member_creates_clan_once_and_appends_after() {
    let mut clans = ClanSystem::new();
    clans.add_member_to_clan("A", "Ann");
    assert_eq!(clans.get_clan_count(), 1);
    assert_eq!(clans.get_clan_member_names("A"), vec![String::from("Ann")]);
    clans.add_member_to_clan("A", "Bo");
    assert_eq!(clans.get_clan_count(), 1);
    assert_eq!(
        clans.get_clan_member_names("A"),
        vec![String::from("Ann"), String::from("Bo")]
    );
    assert_eq!(clans.get_clan_member_count("A"), 2);
}

#[test]
fn duplicate_member_names_are_kept() {
    let mut clans = ClanSystem::new();
    clans.add_member_to_clan("A", "Ann");
    clans.add_member_to_clan("A", "Ann");
    assert_eq!(clans.get_clan_count(), 1);
    assert_eq!(clans.get_clan_member_count("A"), 2);
}

#[test]
fn largest_clan_after_unbalanced_adds() {
    let mut clans = ClanSystem::new();
    clans.add_member_to_clan("A", "Ann");
    clans.add_member_to_clan("A", "Bo");
    clans.add_member_to_clan("A", "Cy");
    clans.add_member_to_clan("B", "Di");
    assert_eq!(clans.get_clan_count(), 2);
    assert_eq!(clans.get_largest_clan_id(), Some(String::from("A")));
}

#[test]
fn largest_clan_tie_goes_to_first_created() {
    let mut clans = ClanSystem::new();
    clans.add_member_to_clan("B", "Ann");
    clans.add_member_to_clan("A", "Bo");
    assert_eq!(clans.get_largest_clan_id(), Some(String::from("B")));
}

#[test]
fn clan_with_no_members_still_counts() {
    let clans = ClanSystem {
        clans: vec![Clan { id: String::from("E"), members: vec![] }],
    };
    assert_eq!(clans.get_clan_count(), 1);
    assert_eq!(clans.get_clan_member_count("E"), 0);
    assert!(clans.get_clan_member_names("E").is_empty());
    assert_eq!(clans.get_largest_clan_id(), Some(String::from("E")));
}

#[test]
fn beach_delegates_clan_membership() {
    let mut beach = Beach::new();
    beach.add_crab(sample_crab("Ann", 10));
    beach.add_member_to_clan("A", "Ann");
    beach.add_member_to_clan("A", "Ghost");
    let clans = beach.get_clan_system();
    assert_eq!(clans.get_clan_count(), 1);
    assert_eq!(
        clans.get_clan_member_names("A"),
        vec![String::from("Ann"), String::from("Ghost")]
    );
}

#[test]
fn winner_clan_has_higher_average_speed() {
    let mut beach = Beach::new();
    beach.add_crab(sample_crab("Ann", 40));
    beach.add_crab(sample_crab("Bo", 60));
    beach.add_crab(sample_crab("Cy", 30));
    beach.add_member_to_clan("A", "Ann");
    beach.add_member_to_clan("A", "Bo");
    beach.add_member_to_clan("B", "Cy");
    // clan A averages 50, clan B averages 30
    assert_eq!(beach.get_winner_clan("A", "B"), Ok(Some(String::from("A"))));
    assert_eq!(beach.get_winner_clan("B", "A"), Ok(Some(String::from("A"))));
}

#[test]
fn equal_averages_mean_no_winner() {
    let mut beach = Beach::new();
    beach.add_crab(sample_crab("Ann", 25));
    beach.add_crab(sample_crab("Bo", 25));
    beach.add_member_to_clan("A", "Ann");
    beach.add_member_to_clan("B", "Bo");
    assert_eq!(beach.get_winner_clan("A", "B"), Ok(None));
}

#[test]
fn unknown_clan_id_is_an_error() {
    let mut beach = Beach::new();
    beach.add_crab(sample_crab("Ann", 25));
    beach.add_member_to_clan("A", "Ann");
    assert_eq!(
        beach.get_winner_clan("A", "missing"),
        Err(String::from("Clan not found"))
    );
    assert_eq!(
        beach.get_winner_clan("missing", "A"),
        Err(String::from("Clan not found"))
    );
}

#[test]
fn average_speed_truncates_and_skips_dangling_names() {
    let mut beach = Beach::new();
    beach.add_crab(sample_crab("Ann", 10));
    beach.add_crab(sample_crab("Bo", 15));
    beach.add_member_to_clan("A", "Ann");
    beach.add_member_to_clan("A", "Bo");
    // total 25 over 2 members, truncating division
    assert_eq!(beach.calculate_average_speed("A"), Ok(12));
    // a member name that matches no crab contributes nothing but still counts
    beach.add_member_to_clan("B", "Ann");
    beach.add_member_to_clan("B", "Ghost");
    assert_eq!(beach.calculate_average_speed("B"), Ok(5));
    assert_eq!(
        beach.calculate_average_speed("missing"),
        Err(String::from("Clan not found"))
    );
}

#[test]
fn duplicate_member_resolves_to_first_matching_crab() {
    let mut beach = Beach::new();
    beach.add_crab(sample_crab("Ann", 10));
    beach.add_crab(sample_crab("Ann", 90));
    beach.add_member_to_clan("A", "Ann");
    // the member name resolves to the first crab carrying it
    assert_eq!(beach.calculate_average_speed("A"), Ok(10));
}
