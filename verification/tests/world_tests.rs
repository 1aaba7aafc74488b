use adventure::dict::Dict;
use adventure::names::{get_name, NameResolves};
use adventure::world::{Critter, LazzyCritter};

#[test]
fn test_name_resolving() {
    let t = vec![
        vec!["a".to_string(), "b".to_string()],
        vec!["a".to_string(), "c".to_string()],
    ];
    assert_eq!(get_name(&t, vec!["a".to_string()]), NameResolves::Results(vec![0, 1]));
    assert_eq!(get_name(&t, vec!["b".to_string()]), NameResolves::Results(vec![0]));
    assert_eq!(get_name(&t, vec!["c".to_string()]), NameResolves::Results(vec![1]));
    assert_eq!(
        get_name(&t, vec!["a".to_string(), "b".to_string()]),
        NameResolves::Results(vec![0])
    );
    assert_eq!(get_name(&t, vec!["d".to_string()]), NameResolves::Zero);
    assert_eq!(get_name(&t, vec![]), NameResolves::EmptyQuery);
}

#[test]
fn test_lazzy_critter_init() {
    let mut c = LazzyCritter::Name("my-c".to_string());
    let mut map: Dict<Critter> = Dict::new();
    map.insert("my-c".to_string(), Critter::default());
    c.unpack_init(&map);
    assert_eq!(c, LazzyCritter::Critter(Critter::default()));
}

#[test]
fn test_lazzy_critter_mutate() {
    let mut c = LazzyCritter::Critter(Critter::default());
    c.mutate(Critter::default());
    let mut nc = Critter::default();
    nc.hp = -1;
    c.mutate(nc);
    assert!(c.unpack() != Critter::default());
}

#[test]
fn test_critter_dead() {
    let mut c = Critter::default();
    c.hp = 1;
    assert_eq!(c.is_dead(), false);
    c.hurt(1);
    assert_eq!(c.is_dead(), false);
    c.hurt(1);
    assert_eq!(c.is_dead(), true);
}
