use adventure::command::{command, end_turn_with, parse_input, try_command, try_end_turn, Step, HELP};
use adventure::dict::Dict;
use adventure::text::{decimal_text, lowercase, split_words};
use adventure::world::{
    ambient_lines, ambient_lines_with, default_aliases, room_lines, Action, Alignment, Anoyance,
    Attack, Critter, LazzyCritter, Object, Place, Player, World,
};

fn s(x: &str) -> String {
    x.to_string()
}

fn words(xs: &[&str]) -> Vec<String> {
    xs.iter().map(|x| x.to_string()).collect()
}

fn action(verb: &str) -> Action {
    Action { p: s(verb), s: format!("{}s", verb), pt: format!("{}ed", verb) }
}

fn apple() -> Object {
    Object { desc: s("a red apple"), can_take: true, names: words(&["apple", "red"]), wepon: None, food: Some(5) }
}

fn sword() -> Object {
    Object {
        desc: s("a sword"),
        can_take: true,
        names: words(&["sword"]),
        wepon: Some(Attack { name: action("slash"), dam: 3 }),
        food: None,
    }
}

fn rock() -> Object {
    Object { desc: s("a big rock"), can_take: false, names: words(&["rock"]), wepon: None, food: None }
}

fn cheese() -> Object {
    Object { desc: s("some cheese"), can_take: true, names: words(&["cheese"]), wepon: None, food: Some(2) }
}

fn rat(hp: i32, mood: Anoyance) -> Critter {
    Critter {
        attack: Attack { name: action("bite"), dam: 2 },
        hp,
        max_hp: 4,
        desc: s("a rat"),
        name: words(&["rat"]),
        noise: Some(s("squeak")),
        anoyance: mood,
        alignment: Alignment::Fine,
        hurt: s("the rat squeals"),
        backpack: vec![cheese()],
    }
}

fn hero(hp: i32) -> Critter {
    Critter {
        attack: Attack { name: action("punch"), dam: 1 },
        hp,
        max_hp: 12,
        desc: s("you"),
        name: words(&["me"]),
        noise: None,
        anoyance: Anoyance::Chill,
        alignment: Alignment::Fine,
        hurt: s("ouch"),
        backpack: Vec::new(),
    }
}

fn sample_world(rat_mood: Anoyance) -> World {
    let mut down = Dict::new();
    down.insert(s("north"), s("hall"));
    let cellar = Place::new(
        s("A cellar."),
        s("It is damp."),
        None,
        down,
        vec![apple(), sword(), rock()],
        vec![LazzyCritter::Critter(rat(2, rat_mood))],
    );
    let mut up = Dict::new();
    up.insert(s("south"), s("cellar"));
    let hall = Place::new(s("A hall."), s("It is grand."), Some(s("wind howls")), up, Vec::new(), Vec::new());
    let mut map = Dict::new();
    map.insert(s("cellar"), cellar);
    map.insert(s("hall"), hall);
    World {
        map,
        aliases: default_aliases(),
        player: Player { critter: LazzyCritter::Critter(hero(10)), location: s("cellar") },
        critters: Dict::new(),
    }
}

fn done(step: Step) -> Vec<String> {
    match step {
        Step::Done(lines) => lines,
        _ => panic!("expected a finished turn"),
    }
}

fn player_data(w: &World) -> Critter {
    w.player.critter.unpack()
}

fn room<'a>(w: &'a World, name: &str) -> &'a Place {
    w.map.get(&s(name)).unwrap()
}

#[test]
fn object_label_marks_weapons() {
    assert_eq!(sword().f(), "a sword [WPN]");
    assert_eq!(apple().f(), "a red apple ");
}

#[test]
fn parse_lowercases_strips_and_expands_aliases() {
    let aliases = default_aliases();
    assert_eq!(parse_input(&s("Take  the APPLE\r\n"), &aliases), words(&["take", "the", "apple"]));
    assert_eq!(parse_input(&s("N\n"), &aliases), words(&["go", "north"]));
    assert_eq!(parse_input(&s("t apple"), &aliases), words(&["take", "apple"]));
    assert_eq!(parse_input(&s("   \n"), &aliases), Vec::<String>::new());
}

#[test]
fn text_helpers_work_on_words_and_numbers() {
    assert_eq!(split_words(&s(" a  b\tc ")), words(&["a", "b", "c"]));
    assert_eq!(lowercase(&s("MiXeD 9")), "mixed 9");
    assert_eq!(decimal_text(0), "0");
    assert_eq!(decimal_text(-42), "-42");
    assert_eq!(decimal_text(i32::MIN), "-2147483648");
    assert_eq!(decimal_text(1234567), "1234567");
}

#[test]
fn dict_reads_back_what_was_written() {
    let mut d: Dict<String> = Dict::new();
    assert!(d.insert(s("k"), s("one")).is_none());
    assert_eq!(d.get(&s("k")), Some(&s("one")));
    assert_eq!(d.insert(s("k"), s("two")), Some(s("one")));
    assert_eq!(d.get(&s("k")), Some(&s("two")));
    assert_eq!(d.len(), 1);
    assert!(d.get(&s("other")).is_none());
}

#[test]
fn default_aliases_cover_moves_and_commands() {
    let a = default_aliases();
    assert_eq!(a.get(&s("n")), Some(&s("go north")));
    assert_eq!(a.get(&s("?")), Some(&s("help")));
    assert_eq!(a.get(&s("i")), Some(&s("inventory")));
    assert_eq!(a.len(), 11);
}

#[test]
fn empty_line_prints_question_mark() {
    let mut w = sample_world(Anoyance::Chill);
    let mut over = false;
    assert_eq!(done(command(s("  \n"), &mut w, &mut over)), vec![s("?")]);
    assert!(!over);
}

#[test]
fn unknown_command_takes_no_time() {
    let mut w = sample_world(Anoyance::Mad);
    let mut over = false;
    let lines = done(command(s("dance\n"), &mut w, &mut over));
    assert_eq!(lines[0], "?");
    assert_eq!(player_data(&w).hp, 10);
}

#[test]
fn take_moves_object_to_backpack() {
    let mut w = sample_world(Anoyance::Chill);
    let mut over = false;
    let lines = done(command(s("take apple\n"), &mut w, &mut over));
    assert_eq!(lines[0], "you take the a red apple ");
    assert_eq!(player_data(&w).backpack, vec![apple()]);
    assert_eq!(room(&w, "cellar").objects, vec![sword(), rock()]);
}

#[test]
fn take_refuses_fixed_objects_and_unknown_names() {
    let mut w = sample_world(Anoyance::Chill);
    let mut over = false;
    assert_eq!(done(command(s("take rock"), &mut w, &mut over))[0], "nice try but...");
    assert_eq!(done(command(s("take unicorn"), &mut w, &mut over))[0], "You can't find that.");
    assert_eq!(done(command(s("take"), &mut w, &mut over))[0], "You must specify a thing.");
    assert_eq!(room(&w, "cellar").objects.len(), 3);
}

#[test]
fn drop_returns_object_to_place() {
    let mut w = sample_world(Anoyance::Chill);
    let mut over = false;
    done(command(s("take sword"), &mut w, &mut over));
    let lines = done(command(s("drop sword"), &mut w, &mut over));
    assert_eq!(lines[0], "you drop the a sword [WPN]");
    assert!(player_data(&w).backpack.is_empty());
    assert_eq!(room(&w, "cellar").objects, vec![apple(), rock(), sword()]);
}

#[test]
fn eat_heals_up_to_the_maximum() {
    let mut w = sample_world(Anoyance::Chill);
    let mut over = false;
    done(command(s("take apple"), &mut w, &mut over));
    let lines = done(command(s("eat apple"), &mut w, &mut over));
    assert_eq!(lines[0], "you eat a red apple for 5");
    assert_eq!(player_data(&w).hp, 12);
    assert!(player_data(&w).backpack.is_empty());
    done(command(s("take sword"), &mut w, &mut over));
    assert_eq!(done(command(s("eat sword"), &mut w, &mut over))[0], "you cant eat that");
}

#[test]
fn inventory_lists_hit_points_and_backpack() {
    let mut w = sample_world(Anoyance::Chill);
    let mut over = false;
    done(command(s("take apple"), &mut w, &mut over));
    let lines = done(command(s("i"), &mut w, &mut over));
    assert_eq!(lines[0], "HP : 10/12");
    assert_eq!(lines[1], "you have a red apple");
}

#[test]
fn go_moves_along_exits_and_shows_the_place() {
    let mut w = sample_world(Anoyance::Chill);
    let mut over = false;
    let lines = done(command(s("n"), &mut w, &mut over));
    assert_eq!(w.player.location, "hall");
    assert_eq!(lines[0], "A hall.");
    assert_eq!(lines[1], "It is grand.");
    assert_eq!(lines[2], "");
    let lines = done(command(s("go west"), &mut w, &mut over));
    assert_eq!(lines[0], "You can't go that way.");
    assert_eq!(w.player.location, "hall");
    let lines = done(command(s("go"), &mut w, &mut over));
    assert_eq!(lines[0], "You must specify a direction.");
}

#[test]
fn room_lines_show_everything_in_order() {
    let w = sample_world(Anoyance::Chill);
    let lines = room_lines(room(&w, "cellar"));
    assert_eq!(
        lines,
        vec![
            s("A cellar."),
            s("It is damp."),
            s("you see a a red apple ."),
            s("you see a a sword [WPN]."),
            s("you see a a big rock ."),
            s(""),
            s("you see a a rat."),
        ]
    );
}

#[test]
fn ambient_lines_follow_the_rolls() {
    let w = sample_world(Anoyance::Chill);
    let hall = room(&w, "hall");
    assert_eq!(ambient_lines_with(hall, &vec![]), vec![s("wind howls")]);
    let cellar = room(&w, "cellar");
    assert_eq!(ambient_lines_with(cellar, &vec![0]), vec![s("* squeak")]);
    assert_eq!(ambient_lines_with(cellar, &vec![3]), Vec::<String>::new());
}

#[test]
fn ambient_lines_sometimes_let_critters_speak() {
    let w = sample_world(Anoyance::Chill);
    let cellar = room(&w, "cellar");
    let mut heard = 0;
    for _ in 0..300 {
        let lines = ambient_lines(cellar);
        assert!(lines.is_empty() || lines == vec![s("* squeak")]);
        if !lines.is_empty() {
            heard += 1;
        }
    }
    assert!(heard > 0);
    assert!(heard < 300);
}

#[test]
fn mad_critters_strike_each_turn() {
    let mut w = sample_world(Anoyance::Mad);
    let mut over = false;
    let lines = done(command(s("time"), &mut w, &mut over));
    assert_eq!(lines[0], "a rat bites you.");
    assert_eq!(player_data(&w).hp, 8);
    let lines = done(command(s("look"), &mut w, &mut over));
    assert_eq!(lines[0], "a rat bites you.");
    assert_eq!(lines[1], "A cellar.");
    assert_eq!(player_data(&w).hp, 6);
}

#[test]
fn player_dies_below_zero() {
    let mut w = sample_world(Anoyance::Mad);
    w.player.critter = LazzyCritter::Critter(hero(1));
    let mut over = false;
    let lines = done(command(s("time"), &mut w, &mut over));
    assert_eq!(lines, vec![s("a rat bites you."), s("you die")]);
    assert!(over);
}

#[test]
fn attack_hurts_and_angers_the_target() {
    let mut w = sample_world(Anoyance::Chill);
    let mut over = false;
    let lines = done(command(s("attack rat"), &mut w, &mut over));
    assert_eq!(lines[0], "you punch a rat");
    assert_eq!(lines[1], "the rat squeals");
    assert_eq!(lines[2], "a rat bites you.");
    let r = room(&w, "cellar").critters[0].unpack();
    assert_eq!(r.hp, 1);
    assert_eq!(r.anoyance, Anoyance::Mad);
    assert_eq!(player_data(&w).hp, 8);
}

#[test]
fn attack_with_weapon_kills_and_drops_loot() {
    let mut w = sample_world(Anoyance::Chill);
    let mut over = false;
    done(command(s("take sword"), &mut w, &mut over));
    let lines = done(command(s("attack rat with sword"), &mut w, &mut over));
    assert_eq!(lines[0], "you slash a rat with a sword [WPN]");
    assert_eq!(lines[1], "you kill a rat with a sword [WPN]");
    assert!(room(&w, "cellar").critters.is_empty());
    assert_eq!(room(&w, "cellar").objects, vec![apple(), rock(), cheese()]);
}

#[test]
fn attack_refusals_take_no_time() {
    let mut w = sample_world(Anoyance::Mad);
    let mut over = false;
    assert_eq!(done(command(s("attack"), &mut w, &mut over))[0], "JUST TELL ME WHAT TO ATTACK ALREADY!");
    assert_eq!(done(command(s("attack dragon"), &mut w, &mut over))[0], "You cant see that.");
    assert_eq!(done(command(s("attack rat with"), &mut w, &mut over))[0], "JUST TELL ME WHAT TO USE!");
    assert_eq!(done(command(s("attack rat with spoon"), &mut w, &mut over))[0], "You cant find that that.");
    assert_eq!(done(command(s("attack rat with a with b"), &mut w, &mut over))[0], "Come ON!");
    assert_eq!(player_data(&w).hp, 10);
    done(command(s("take apple"), &mut w, &mut over));
    assert_eq!(done(command(s("attack rat with apple"), &mut w, &mut over))[0], "but...");
}

#[test]
fn killing_a_critter_hands_its_data_to_the_next_one() {
    let mut w = sample_world(Anoyance::Chill);
    let mut second = rat(7, Anoyance::Chill);
    second.desc = s("a big rat");
    second.name = words(&["big"]);
    let cellar = w.map.insert(s("cellar"), Place::vacant()).unwrap();
    let mut critters = cellar.critters;
    critters.push(LazzyCritter::Critter(second));
    let cellar = Place::new(cellar.desc, cellar.long, cellar.ambient, cellar.moves, cellar.objects, critters);
    w.map.insert(s("cellar"), cellar);
    w.player.critter = LazzyCritter::Critter(Critter { attack: Attack { name: action("kick"), dam: 5 }, ..hero(10) });
    let mut over = false;
    done(command(s("attack rat"), &mut w, &mut over));
    let left = &room(&w, "cellar").critters;
    assert_eq!(left.len(), 1);
    let data = left[0].unpack();
    assert_eq!(data.desc, "a rat");
    assert_eq!(data.hp, -3);
    assert!(data.backpack.is_empty());
}

#[test]
fn help_prints_the_command_list() {
    let mut w = sample_world(Anoyance::Chill);
    let mut over = false;
    let lines = done(command(s("?"), &mut w, &mut over));
    assert_eq!(lines[0], HELP);
    assert!(HELP.starts_with("help : displays available commands"));
}

#[test]
fn exit_ends_the_game() {
    let mut w = sample_world(Anoyance::Chill);
    let mut over = false;
    done(command(s("q"), &mut w, &mut over));
    assert!(over);
}

#[test]
fn save_and_load_are_handed_back() {
    let mut w = sample_world(Anoyance::Mad);
    let mut over = false;
    match command(s("save game.yml"), &mut w, &mut over) {
        Step::Save(p) => assert_eq!(p, "game.yml"),
        _ => panic!("expected a save"),
    }
    match command(s("load game.yml"), &mut w, &mut over) {
        Step::Load(p) => assert_eq!(p, "game.yml"),
        _ => panic!("expected a load"),
    }
    assert_eq!(player_data(&w).hp, 10);
    assert_eq!(done(command(s("save"), &mut w, &mut over))[0], "You must specify a file path.");
    let lines = try_end_turn(&mut w, false, &mut over).unwrap();
    assert_eq!(lines[0], "a rat bites you.");
}

#[test]
fn try_command_refuses_what_would_fail() {
    let mut w = sample_world(Anoyance::Chill);
    w.player.location = s("nowhere");
    let mut over = false;
    assert!(try_command(s("look"), &mut w, &mut over).is_none());
    assert!(try_end_turn(&mut w, true, &mut over).is_none());
    let mut w = sample_world(Anoyance::Chill);
    w.player.critter = LazzyCritter::Name(s("ghost"));
    assert!(try_command(s("look"), &mut w, &mut over).is_none());
    let mut w = sample_world(Anoyance::Chill);
    assert!(try_command(s("look"), &mut w, &mut over).is_some());
}

#[test]
fn init_critters_looks_up_names_and_angers_the_evil() {
    let mut w = sample_world(Anoyance::Chill);
    let mut orc = rat(9, Anoyance::Chill);
    orc.desc = s("an orc");
    orc.alignment = Alignment::Evil;
    w.critters.insert(s("orc"), orc);
    let hall = w.map.insert(s("hall"), Place::vacant()).unwrap();
    let hall = Place::new(hall.desc, hall.long, hall.ambient, hall.moves, hall.objects, vec![LazzyCritter::Name(s("orc"))]);
    w.map.insert(s("hall"), hall);
    assert!(w.critters_known());
    w.init_critters();
    let c = room(&w, "hall").critters[0].unpack();
    assert_eq!(c.desc, "an orc");
    assert_eq!(c.anoyance, Anoyance::Mad);
    let r = room(&w, "cellar").critters[0].unpack();
    assert_eq!(r.anoyance, Anoyance::Chill);
}

#[test]
fn critters_known_spots_missing_names() {
    let mut w = sample_world(Anoyance::Chill);
    let hall = w.map.insert(s("hall"), Place::vacant()).unwrap();
    let hall = Place::new(hall.desc, hall.long, hall.ambient, hall.moves, hall.objects, vec![LazzyCritter::Name(s("troll"))]);
    w.map.insert(s("hall"), hall);
    assert!(!w.critters_known());
}

#[test]
fn tick_strikes_only_when_mad() {
    let mut player = Player { critter: LazzyCritter::Critter(hero(5)), location: s("x") };
    let mut calm = rat(3, Anoyance::Chill);
    assert_eq!(calm.tick(&mut player), None);
    assert_eq!(player.critter.unpack().hp, 5);
    let mut mad = rat(3, Anoyance::Mad);
    assert_eq!(mad.tick(&mut player), Some(s("a rat bites you.")));
    assert_eq!(player.critter.unpack().hp, 3);
}

#[test]
fn kill_empties_backpack_into_place() {
    let w = sample_world(Anoyance::Chill);
    let mut place = room(&w, "cellar").duplicate();
    let mut r = rat(1, Anoyance::Chill);
    r.kill(&mut place);
    assert!(r.backpack.is_empty());
    assert_eq!(place.objects, vec![apple(), sword(), rock(), cheese()]);
}

fn objects_in_place(p: &Place) -> usize {
    p.objects.len() + p.critters.iter().map(|c| c.unpack().backpack.len()).sum::<usize>()
}

#[test]
fn attack_keeps_every_object_of_the_place() {
    let mut w = sample_world(Anoyance::Chill);
    let mut over = false;
    done(command(s("take sword"), &mut w, &mut over));
    let before = objects_in_place(room(&w, "cellar"));
    done(command(s("attack rat"), &mut w, &mut over));
    assert_eq!(objects_in_place(room(&w, "cellar")), before);
    assert_eq!(room(&w, "cellar").critters.len(), 1);
    done(command(s("attack rat with sword"), &mut w, &mut over));
    assert_eq!(objects_in_place(room(&w, "cellar")), before);
    assert!(room(&w, "cellar").critters.is_empty());
    assert_eq!(player_data(&w).backpack, vec![sword()]);
}

#[test]
fn end_turn_adds_the_ambient_noise_on_an_even_byte() {
    let mut w = sample_world(Anoyance::Chill);
    w.player.location = s("hall");
    let mut over = false;
    let lines = end_turn_with(&mut w, true, false, &mut over, 4);
    assert_eq!(lines, vec![s("wind howls")]);
    let lines = end_turn_with(&mut w, true, false, &mut over, 7);
    assert!(lines.is_empty());
    let lines = end_turn_with(&mut w, true, true, &mut over, 1);
    assert_eq!(lines, vec![s("A hall."), s("It is grand."), s("")]);
    assert!(!over);
}

#[test]
fn end_turn_prints_no_noise_for_the_dead() {
    let mut w = sample_world(Anoyance::Mad);
    w.player.critter = LazzyCritter::Critter(hero(1));
    let mut over = false;
    let lines = end_turn_with(&mut w, true, false, &mut over, 0);
    assert_eq!(lines, vec![s("a rat bites you."), s("you die")]);
    assert!(over);
}

#[test]
fn words_split_at_every_unicode_space() {
    assert_eq!(split_words(&s("a\u{a0}b\u{3000}c\r\nd\u{2009}e")), words(&["a", "b", "c", "d", "e"]));
    assert_eq!(split_words(&s("a\u{200b}b")), words(&["a\u{200b}b"]));
    assert_eq!(parse_input(&s("  GO   North\r\n"), &default_aliases()), words(&["go", "north"]));
}
