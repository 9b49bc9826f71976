use dogen::names::{
    county_name_source, government_for_population, has_repeated_syllable,
    subprefecture_name_source, subprefecture_settled_by_city_draw, Government, Name, NameSet,
    NameSource,
};
use dogen::network::link_pairs;
use dogen::placename::{parse_dataset_line, split_chars};
use dogen::random::RandomF64;

fn chars(s: &str) -> Vec<char> {
    s.chars().collect()
}

fn name(a: &str, b: &str) -> Name {
    Name::from_tuple((a.to_string(), b.to_string()))
}

#[test]
fn government_thresholds() {
    assert_eq!(government_for_population(0), Government::Village);
    assert_eq!(government_for_population(2999), Government::Village);
    assert_eq!(government_for_population(3000), Government::Town);
    assert_eq!(government_for_population(19999), Government::Town);
    assert_eq!(government_for_population(20000), Government::City);
}

#[test]
fn government_names() {
    assert_eq!(Government::Village.name().name(), "村");
    assert_eq!(Government::Village.name().reading(), "mura");
    assert_eq!(Government::Town.name().name(), "町");
    assert_eq!(Government::City.name().reading(), "shi");
}

#[test]
fn name_set_getters() {
    let set = NameSet::new(
        name("札幌", "sapporo"),
        name("石狩", "ishikari"),
        name("空知", "sorachi"),
        name("振興局", "shinkoukyoku"),
        Government::City.name(),
    );
    assert_eq!(set.city_name().name(), "札幌");
    assert_eq!(set.county_name().reading(), "ishikari");
    assert_eq!(set.subprefecture_name().name(), "空知");
    assert_eq!(set.subprefecture_postfix().reading(), "shinkoukyoku");
    assert_eq!(set.government().name(), "市");
}

#[test]
fn county_name_rules() {
    assert_eq!(county_name_source(Government::Town, true), NameSource::CityName);
    assert_eq!(county_name_source(Government::Village, true), NameSource::Fresh);
    assert_eq!(county_name_source(Government::City, false), NameSource::Fresh);
}

#[test]
fn subprefecture_name_rules() {
    assert!(subprefecture_settled_by_city_draw(Government::City, true));
    assert!(!subprefecture_settled_by_city_draw(Government::Town, true));
    assert_eq!(
        subprefecture_name_source(Government::City, true, false, true),
        NameSource::CityName
    );
    assert_eq!(
        subprefecture_name_source(Government::Town, true, false, true),
        NameSource::CountyName
    );
    assert_eq!(
        subprefecture_name_source(Government::Town, false, true, false),
        NameSource::CityName
    );
    assert_eq!(
        subprefecture_name_source(Government::Village, true, true, false),
        NameSource::Fresh
    );
}

#[test]
fn repeated_syllables() {
    let s = |a: &str, b: &str| (a.to_string(), b.to_string());
    assert!(!has_repeated_syllable(&vec![s("さ", "sa"), s("ぽ", "po"), s("ろ", "ro")]));
    assert!(has_repeated_syllable(&vec![s("さ", "sa"), s("さ", "za")]));
    assert!(has_repeated_syllable(&vec![s("か", "ka"), s("が", "ka")]));
    assert!(has_repeated_syllable(&vec![s("", "a")]));
    assert!(!has_repeated_syllable(&vec![]));
}

#[test]
fn split_like_str_split() {
    let pieces = split_chars(&chars("a::bc:"), ':');
    assert_eq!(pieces, vec![chars("a"), chars(""), chars("bc"), chars("")]);
    assert_eq!(split_chars(&chars(""), ':'), vec![chars("")]);
}

#[test]
fn dataset_line_phrases() {
    let r = parse_dataset_line(&chars("1,北海道,さっ_sap:ぽろ_poro")).unwrap();
    assert_eq!(r, vec![(chars("さっ"), chars("sap")), (chars("ぽろ"), chars("poro"))]);
    let r = parse_dataset_line(&chars("x,a_b_c:nounderscore::d_")).unwrap();
    assert_eq!(r, vec![(chars("a"), chars("b")), (chars("d"), chars(""))]);
    assert_eq!(parse_dataset_line(&chars("")), None);
    assert_eq!(parse_dataset_line(&chars("no phrases,")), Some(vec![]));
}

#[test]
fn each_link_listed_once() {
    let neighbors = vec![vec![1, 2], vec![0, 2], vec![1, 0, 3], vec![2]];
    assert_eq!(link_pairs(&neighbors), vec![(0, 1), (0, 2), (1, 2), (2, 3)]);
    assert_eq!(link_pairs(&vec![]), vec![]);
}

#[test]
fn random_source_lends_its_generator() {
    let mut r = RandomF64::new(41u64);
    *r.generator_mut() += 1;
    assert_eq!(*r.generator_mut(), 42);
}
