use vstd::prelude::*;
use crate::dict::Dict;
use crate::names::{get_name, lemma_matching, matching, NameResolves};
use crate::text::{decimal, decimal_text, join, lower, lowercase, same, split_words, text, words};
use crate::world::{
    all_unpacked, ambient_lines, ambient_text, body, copy_strings, critters_view, fair_rolls, label,
    objects_view, room_lines, room_text, strike_line, Anoyance, Critter, CritterView,
    LazzyCritter, LazzyView, Object, ObjectView, Place, PlaceView, Player, PlayerView, World,
    WorldView,
};
use crate::chance::random_byte;

verus! {

// ---------------------------------------------------------------- reading a command line

/// `s` without one trailing line feed, and then without one trailing carriage return.
pub open spec fn strip_line_end(s: Seq<char>) -> Seq<char> {
    let a = if s.len() > 0 && s.last() == '\n' {
        s.drop_last()
    } else {
        s
    };
    if a.len() > 0 && a.last() == '\r' {
        a.drop_last()
    } else {
        a
    }
}

/// The lower-cased words of a command line.
pub open spec fn line_words(input: Seq<char>) -> Seq<Seq<char>> {
    words(strip_line_end(input)).map_values(|w: Seq<char>| lower(w))
}

/// The words with the first one replaced by the words of its alias, when it has one.
pub open spec fn expand_alias(ws: Seq<Seq<char>>, aliases: Map<Seq<char>, Seq<char>>) -> Seq<
    Seq<char>,
> {
    if ws.len() > 0 && aliases.contains_key(ws[0]) {
        words(aliases[ws[0]]) + ws.drop_first()
    } else {
        ws
    }
}

/// The words a command line stands for.
pub open spec fn tokens(input: Seq<char>, aliases: Map<Seq<char>, Seq<char>>) -> Seq<Seq<char>> {
    expand_alias(line_words(input), aliases)
}

/// The characters of `s`.
fn chars_of(s: &String) -> (r: Vec<char>)
    ensures
        r@ == s@,
{
    let mut v: Vec<char> = Vec::new();
    for c in it: s.as_str().chars()
        invariant
            v@ == it.seq().take(it.index() as int),
    {
        v.push(c);
    }
    v
}

/// `s` without one trailing line feed, and then without one trailing carriage return.
fn strip_end(s: &String) -> (r: String)
    ensures
        r@ == strip_line_end(s@),
{
    let cs = chars_of(s);
    let mut end: usize = cs.len();
    if end > 0 && cs[end - 1] == '\n' {
        end = end - 1;
    }
    if end > 0 && cs[end - 1] == '\r' {
        end = end - 1;
    }
    let mut r = String::new();
    let mut i: usize = 0;
    while i < end
        invariant
            end <= cs@.len(),
            i <= end,
            r@ == cs@.take(i as int),
        decreases end - i,
    {
        crate::text::push_char(&mut r, cs[i]);
        assert(cs@.take(i + 1) =~= cs@.take(i as int).push(cs@[i as int]));
        i = i + 1;
    }
    proof {
        let s1 = if s@.len() > 0 && s@.last() == '\n' {
            s@.drop_last()
        } else {
            s@
        };
        assert(s1 =~= cs@.take(s1.len() as int));
        assert(r@ =~= strip_line_end(s@));
    }
    r
}

/// The lower-cased words of a command line.
pub fn read_words(input: &String) -> (r: Vec<String>)
    ensures
        r.deep_view() == line_words(input@),
{
    let ws = split_words(&strip_end(input));
    let mut r: Vec<String> = Vec::new();
    let mut i: usize = 0;
    while i < ws.len()
        invariant
            i <= ws@.len(),
            r@.len() == i,
            r.deep_view() == ws.deep_view().take(i as int).map_values(|w: Seq<char>| lower(w)),
        decreases ws@.len() - i,
    {
        let w = lowercase(&ws[i]);
        let ghost before = r.deep_view();
        r.push(w);
        assert(r.deep_view() =~= before.push(w@));
        assert(ws.deep_view().take(i + 1).map_values(|w: Seq<char>| lower(w)) =~= ws.deep_view().take(
            i as int,
        ).map_values(|w: Seq<char>| lower(w)).push(lower(ws.deep_view()[i as int])));
        i = i + 1;
    }
    assert(ws.deep_view().take(ws@.len() as int) =~= ws.deep_view());
    r
}

/// The words from position `from` on.
fn words_from(ws: &Vec<String>, from: usize) -> (r: Vec<String>)
    requires
        from <= ws@.len(),
    ensures
        r.deep_view() == ws.deep_view().subrange(from as int, ws@.len() as int),
{
    let mut r: Vec<String> = Vec::new();
    let mut i: usize = from;
    while i < ws.len()
        invariant
            from <= i <= ws@.len(),
            r@.len() == i - from,
            r.deep_view() == ws.deep_view().subrange(from as int, i as int),
        decreases ws@.len() - i,
    {
        let w = ws[i].clone();
        let ghost before = r.deep_view();
        r.push(w);
        assert(r.deep_view() =~= before.push(w@));
        assert(ws.deep_view().subrange(from as int, i + 1) =~= ws.deep_view().subrange(
            from as int,
            i as int,
        ).push(ws.deep_view()[i as int]));
        i = i + 1;
    }
    r
}

/// The words a command line stands for: its lower-cased words, with the first one replaced
/// by the words of its alias when it has one.
pub fn parse_input(input: &String, aliases: &Dict<String>) -> (r: Vec<String>)
    ensures
        r.deep_view() == tokens(input@, aliases@),
{
    let ws = read_words(input);
    if ws.len() > 0 {
        match aliases.get(&ws[0]) {
            Some(x) => {
                let mut r = split_words(x);
                let rest = words_from(&ws, 1);
                let ghost front = r.deep_view();
                let mut i: usize = 0;
                while i < rest.len()
                    invariant
                        i <= rest@.len(),
                        r@.len() == front.len() + i,
                        r.deep_view() == front + rest.deep_view().take(i as int),
                    decreases rest@.len() - i,
                {
                    let w = rest[i].clone();
                    let ghost before = r.deep_view();
                    r.push(w);
                    assert(r.deep_view() =~= before.push(w@));
                    assert(front + rest.deep_view().take(i + 1) =~= (front + rest.deep_view().take(
                        i as int,
                    )).push(rest.deep_view()[i as int]));
                    i = i + 1;
                }
                assert(rest.deep_view().take(rest@.len() as int) =~= rest.deep_view());
                assert(ws.deep_view().subrange(1, ws@.len() as int) =~= ws.deep_view().drop_first());
                return r;
            },
            None => {},
        }
    }
    ws
}

// ---------------------------------------------------------------- what a command does

/// The text shown by `help`.
pub const HELP: &'static str = "help : displays available commands; world.aliases = ?
go [north, south, west, east, up, down] : move in a direction; aliases = n s e w u d
take [objects] : take an objects; world.aliases = t [objects]
drop [object] : drop an object form 
look [objects] : look at an object's you ; aliases l
inventory <objects> : look at you backpack ; aliases i
save [file] : save game data to json
load [file] : load game data from json
time : you sit arround ; aliases = .";

/// What acting on a command does to the current place and the player, what it prints,
/// whether time passes, whether the place is shown again and whether the game ends.
pub struct ActView {
    pub room: PlaceView,
    pub player: PlayerView,
    pub lines: Seq<Seq<char>>,
    pub time: bool,
    pub redisplay: bool,
    pub exit: bool,
}

/// The result of acting on a command.
pub struct Act {
    pub lines: Vec<String>,
    pub time: bool,
    pub redisplay: bool,
    pub exit: bool,
}

/// What `a` says, with the place and the player as they are afterwards.
pub open spec fn act_view(room: PlaceView, player: PlayerView, a: Act) -> ActView {
    ActView {
        room,
        player,
        lines: a.lines.deep_view(),
        time: a.time,
        redisplay: a.redisplay,
        exit: a.exit,
    }
}

/// Nothing changes and nothing is printed; time passes.
pub open spec fn calm(room: PlaceView, player: PlayerView) -> ActView {
    ActView { room, player, lines: Seq::empty(), time: true, redisplay: false, exit: false }
}

/// Nothing changes, `line` is printed, and time passes.
pub open spec fn say(room: PlaceView, player: PlayerView, line: Seq<char>) -> ActView {
    ActView { lines: seq![line], ..calm(room, player) }
}

/// Nothing changes, `line` is printed, and no time passes.
pub open spec fn balk(room: PlaceView, player: PlayerView, line: Seq<char>) -> ActView {
    ActView { lines: seq![line], time: false, ..calm(room, player) }
}

/// The player with critter data `c`.
pub open spec fn with_body(player: PlayerView, c: CritterView) -> PlayerView {
    PlayerView { critter: LazzyView::Critter(c), ..player }
}

/// The names of each object.
pub open spec fn object_names(objs: Seq<ObjectView>) -> Seq<Seq<Seq<char>>> {
    objs.map_values(|o: ObjectView| o.names)
}

/// The names of each critter.
pub open spec fn critter_names(cs: Seq<LazzyView>) -> Seq<Seq<Seq<char>>> {
    cs.map_values(|c: LazzyView| body(c).name)
}

/// The positions of the objects whose names hold every word of `query`.
pub open spec fn object_hits(objs: Seq<ObjectView>, query: Seq<Seq<char>>) -> Seq<usize> {
    matching(object_names(objs), query, objs.len())
}

/// `go`: the player moves along the exit named by the first word, if the place has it.
pub open spec fn go_view(room: PlaceView, player: PlayerView, rest: Seq<Seq<char>>) -> ActView {
    let r = if rest.len() == 0 {
        say(room, player, "You must specify a direction."@)
    } else if room.moves.contains_key(rest[0]) {
        calm(room, PlayerView { location: room.moves[rest[0]], ..player })
    } else {
        say(room, player, "You can't go that way."@)
    };
    ActView { redisplay: true, ..r }
}

/// `take`: the first object named is moved from the place to the player's backpack, when it
/// can be taken.
pub open spec fn take_view(room: PlaceView, player: PlayerView, query: Seq<Seq<char>>) -> ActView {
    let hits = object_hits(room.objects, query);
    if query.len() == 0 {
        say(room, player, "You must specify a thing."@)
    } else if hits.len() == 0 {
        say(room, player, "You can't find that."@)
    } else {
        let o = room.objects[hits[0] as int];
        if o.can_take {
            let c = body(player.critter);
            ActView {
                room: PlaceView { objects: room.objects.remove(hits[0] as int), ..room },
                player: with_body(player, CritterView { backpack: c.backpack.push(o), ..c }),
                lines: seq!["you take the "@ + label(o)],
                ..calm(room, player)
            }
        } else {
            say(room, player, "nice try but..."@)
        }
    }
}

/// `drop`: the first object named is moved from the player's backpack to the place, when it
/// can be taken.
pub open spec fn drop_view(room: PlaceView, player: PlayerView, query: Seq<Seq<char>>) -> ActView {
    let c = body(player.critter);
    let hits = object_hits(c.backpack, query);
    if query.len() == 0 {
        say(room, player, "You must specify a thing."@)
    } else if hits.len() == 0 {
        say(room, player, "You can't find that."@)
    } else {
        let o = c.backpack[hits[0] as int];
        if o.can_take {
            ActView {
                room: PlaceView { objects: room.objects.push(o), ..room },
                player: with_body(
                    player,
                    CritterView { backpack: c.backpack.remove(hits[0] as int), ..c },
                ),
                lines: seq!["you drop the "@ + label(o)],
                ..calm(room, player)
            }
        } else {
            say(room, player, "nice try but..."@)
        }
    }
}

/// The smaller of two numbers.
pub open spec fn least(a: int, b: int) -> int {
    if a <= b {
        a
    } else {
        b
    }
}

/// `eat`: the first object named in the backpack, when it can be taken and is food, is
/// eaten: the player gains its food value in hit points, up to the maximum.
pub open spec fn eat_view(room: PlaceView, player: PlayerView, query: Seq<Seq<char>>) -> ActView {
    let c = body(player.critter);
    let hits = object_hits(c.backpack, query);
    if query.len() == 0 {
        say(room, player, "You must specify a thing."@)
    } else if hits.len() == 0 {
        say(room, player, "You can't find that."@)
    } else {
        let o = c.backpack[hits[0] as int];
        if !o.can_take {
            say(room, player, "nice try but..."@)
        } else {
            match o.food {
                Some(x) => ActView {
                    player: with_body(
                        player,
                        CritterView {
                            hp: least(c.max_hp as int, c.hp + x) as i32,
                            backpack: c.backpack.remove(hits[0] as int),
                            ..c
                        },
                    ),
                    lines: seq!["you eat "@ + o.desc + " for "@ + decimal(x as int)],
                    ..calm(room, player)
                },
                None => say(room, player, "you cant eat that"@),
            }
        }
    }
}

/// Eating as `eat_view` describes stays within `i32`.
pub open spec fn eat_fits(player: PlayerView, query: Seq<Seq<char>>) -> bool {
    let c = body(player.critter);
    let hits = object_hits(c.backpack, query);
    query.len() > 0 && hits.len() > 0 ==> {
        let o = c.backpack[hits[0] as int];
        o.can_take && o.food is Some ==> i32::MIN <= c.hp + o.food->0 <= i32::MAX
    }
}

/// `inventory`: the player's hit points and the description of each thing in the backpack.
pub open spec fn inventory_view(room: PlaceView, player: PlayerView) -> ActView {
    let c = body(player.critter);
    ActView {
        lines: seq!["HP : "@ + decimal(c.hp as int) + "/"@ + decimal(c.max_hp as int)]
            + c.backpack.map_values(|o: ObjectView| "you have "@ + o.desc),
        ..calm(room, player)
    }
}

// ---------------------------------------------------------------- acting on a command

/// One printed line; time passes or not.
fn one_line(line: String, time: bool) -> (a: Act)
    ensures
        a.lines.deep_view() == seq![line@],
        a.time == time,
        !a.redisplay,
        !a.exit,
{
    let a = Act { lines: vec![line], time, redisplay: false, exit: false };
    assert(a.lines.deep_view() =~= seq![line@]);
    a
}

/// Nothing printed; time passes.
fn no_lines() -> (a: Act)
    ensures
        a.lines.deep_view() == Seq::<Seq<char>>::empty(),
        a.time,
        !a.redisplay,
        !a.exit,
{
    let a = Act { lines: Vec::new(), time: true, redisplay: false, exit: false };
    assert(a.lines.deep_view() =~= Seq::<Seq<char>>::empty());
    a
}

/// The names of each object.
fn object_names_of(objs: &Vec<Object>) -> (r: Vec<Vec<String>>)
    ensures
        r.deep_view() == object_names(objects_view(objs@)),
{
    let mut r: Vec<Vec<String>> = Vec::new();
    let mut i: usize = 0;
    while i < objs.len()
        invariant
            i <= objs@.len(),
            r@.len() == i,
            r.deep_view() == object_names(objects_view(objs@)).take(i as int),
        decreases objs@.len() - i,
    {
        let names = copy_strings(&objs[i].names);
        let ghost before = r.deep_view();
        r.push(names);
        assert(r.deep_view() =~= before.push(names.deep_view()));
        assert(object_names(objects_view(objs@)).take(i + 1) =~= object_names(
            objects_view(objs@),
        ).take(i as int).push(objs@[i as int].names.deep_view()));
        i = i + 1;
    }
    assert(object_names(objects_view(objs@)).take(objs@.len() as int) =~= object_names(
        objects_view(objs@),
    ));
    r
}

/// `go`.
fn do_go(room: &Place, player: &mut Player, rest: &Vec<String>) -> (a: Act)
    ensures
        act_view(room@, final(player)@, a) == go_view(room@, old(player)@, rest.deep_view()),
{
    let mut a = if rest.len() == 0 {
        one_line(text("You must specify a direction."), true)
    } else {
        match room.moves.get(&rest[0]) {
            Some(dest) => {
                player.location = dest.clone();
                no_lines()
            },
            None => one_line(text("You can't go that way."), true),
        }
    };
    a.redisplay = true;
    a
}

/// `take`.
fn do_take(room: &mut Place, player: &mut Player, query: Vec<String>) -> (a: Act)
    requires
        old(player).critter is Critter,
    ensures
        act_view(final(room)@, final(player)@, a) == take_view(
            old(room)@,
            old(player)@,
            query.deep_view(),
        ),
{
    let ghost q = query.deep_view();
    let names = object_names_of(&room.objects);
    let count: usize = names.len();
    assert(object_names(objects_view(room.objects@)).len() == room.objects@.len());
    assert(count == room.objects@.len());
    proof {
        lemma_matching(names.deep_view(), q, count as nat);
    }
    match get_name(&names, query) {
        NameResolves::Results(ids) => {
            let k = ids[0];
            assert(ids@ == matching(names.deep_view(), q, count as nat));
            assert(k < count);
            if room.objects[k].can_take {
                let line = join(&text("you take the "), &room.objects[k].f());
                let mut c = player.critter.unpack();
                let ghost c0 = c@;
                let item = room.objects[k].duplicate();
                c.backpack.push(item);
                assert(c@.backpack =~= c0.backpack.push(old(room)@.objects[k as int]));
                player.critter.mutate(c);
                room.objects.remove(k);
                assert(final(room)@.objects =~= old(room)@.objects.remove(k as int));
                one_line(line, true)
            } else {
                one_line(text("nice try but..."), true)
            }
        },
        NameResolves::EmptyQuery => one_line(text("You must specify a thing."), true),
        NameResolves::Zero => one_line(text("You can't find that."), true),
    }
}

/// `drop`.
fn do_drop(room: &mut Place, player: &mut Player, query: Vec<String>) -> (a: Act)
    requires
        old(player).critter is Critter,
    ensures
        act_view(final(room)@, final(player)@, a) == drop_view(
            old(room)@,
            old(player)@,
            query.deep_view(),
        ),
{
    let ghost q = query.deep_view();
    let mut c = player.critter.unpack();
    let ghost c0 = c@;
    let names = object_names_of(&c.backpack);
    let count: usize = names.len();
    assert(object_names(objects_view(c.backpack@)).len() == c.backpack@.len());
    assert(count == c.backpack@.len());
    proof {
        lemma_matching(names.deep_view(), q, count as nat);
    }
    let a = match get_name(&names, query) {
        NameResolves::Results(ids) => {
            let k = ids[0];
            assert(ids@ == matching(names.deep_view(), q, count as nat));
            assert(k < count);
            if c.backpack[k].can_take {
                let line = join(&text("you drop the "), &c.backpack[k].f());
                let item = c.backpack[k].duplicate();
                room.objects.push(item);
                assert(final(room)@.objects =~= old(room)@.objects.push(c0.backpack[k as int]));
                c.backpack.remove(k);
                assert(c@.backpack =~= c0.backpack.remove(k as int));
                one_line(line, true)
            } else {
                one_line(text("nice try but..."), true)
            }
        },
        NameResolves::EmptyQuery => one_line(text("You must specify a thing."), true),
        NameResolves::Zero => one_line(text("You can't find that."), true),
    };
    player.critter.mutate(c);
    assert(final(player)@ =~= drop_view(old(room)@, old(player)@, q).player);
    a
}

/// `eat`.
fn do_eat(room: &Place, player: &mut Player, query: Vec<String>) -> (a: Act)
    requires
        old(player).critter is Critter,
        eat_fits(old(player)@, query.deep_view()),
    ensures
        act_view(room@, final(player)@, a) == eat_view(room@, old(player)@, query.deep_view()),
{
    let ghost q = query.deep_view();
    let mut c = player.critter.unpack();
    let ghost c0 = c@;
    let names = object_names_of(&c.backpack);
    let count: usize = names.len();
    assert(object_names(objects_view(c.backpack@)).len() == c.backpack@.len());
    assert(count == c.backpack@.len());
    proof {
        lemma_matching(names.deep_view(), q, count as nat);
    }
    let a = match get_name(&names, query) {
        NameResolves::Results(ids) => {
            let k = ids[0];
            assert(ids@ == matching(names.deep_view(), q, count as nat));
            assert(k < count);
            if c.backpack[k].can_take {
                match c.backpack[k].food {
                    Some(x) => {
                        let mut line = text("you eat ");
                        line.append(c.backpack[k].desc.as_str());
                        line.append(" for ");
                        line.append(decimal_text(x).as_str());
                        let total: i32 = c.hp + x;
                        c.hp = if c.max_hp <= total {
                            c.max_hp
                        } else {
                            total
                        };
                        c.backpack.remove(k);
                        assert(c@.backpack =~= c0.backpack.remove(k as int));
                        one_line(line, true)
                    },
                    None => one_line(text("you cant eat that"), true),
                }
            } else {
                one_line(text("nice try but..."), true)
            }
        },
        NameResolves::EmptyQuery => one_line(text("You must specify a thing."), true),
        NameResolves::Zero => one_line(text("You can't find that."), true),
    };
    player.critter.mutate(c);
    assert(final(player)@ =~= eat_view(room@, old(player)@, q).player);
    a
}

/// `inventory`.
fn do_inventory(player: &Player) -> (a: Act)
    requires
        player.critter is Critter,
    ensures
        a.lines.deep_view() == inventory_view(arbitrary(), player@).lines,
        a.time,
        !a.redisplay,
        !a.exit,
{
    let c = player.critter.unpack();
    let mut head = text("HP : ");
    head.append(decimal_text(c.hp).as_str());
    head.append("/");
    head.append(decimal_text(c.max_hp).as_str());
    let mut lines: Vec<String> = vec![head];
    let ghost front = lines.deep_view();
    assert(front =~= seq![head@]);
    let ghost had = c@.backpack.map_values(|o: ObjectView| "you have "@ + o.desc);
    let mut i: usize = 0;
    while i < c.backpack.len()
        invariant
            i <= c.backpack@.len(),
            lines.deep_view() == front + had.take(i as int),
            had == c@.backpack.map_values(|o: ObjectView| "you have "@ + o.desc),
        decreases c.backpack@.len() - i,
    {
        let mut line = text("you have ");
        line.append(c.backpack[i].desc.as_str());
        let ghost before = lines.deep_view();
        lines.push(line);
        assert(lines.deep_view() =~= before.push(line@));
        assert(front + had.take(i + 1) =~= (front + had.take(i as int)).push(had[i as int]));
        i = i + 1;
    }
    assert(had.take(c.backpack@.len() as int) =~= had);
    Act { lines, time: true, redisplay: false, exit: false }
}

// ---------------------------------------------------------------- fighting

/// The words split at each occurrence of `sep`, looking at the first `n` words: every
/// separator starts a new (possibly empty) part.
pub open spec fn split_scan(ts: Seq<Seq<char>>, sep: Seq<char>, n: nat) -> Seq<Seq<Seq<char>>>
    decreases n,
{
    if n == 0 {
        seq![Seq::empty()]
    } else {
        let p = split_scan(ts, sep, (n - 1) as nat);
        if ts[n - 1] == sep {
            p.push(Seq::empty())
        } else {
            p.update(p.len() - 1, p.last().push(ts[n - 1]))
        }
    }
}

/// A critter hit for `dam`: mad, and `dam` hit points poorer.
pub open spec fn hurt_view(c: CritterView, dam: int) -> CritterView {
    CritterView { anoyance: Anoyance::Mad, hp: (c.hp - dam) as i32, ..c }
}

/// The place after the critter at `tid` has been hit and is now `t`. A dead critter drops
/// its backpack into the place and leaves it; the critter that then stands at `tid`, if
/// any, takes over the dead critter's data with an empty backpack.
pub open spec fn hit_place(room: PlaceView, tid: int, t: CritterView) -> PlaceView {
    if t.hp < 0 {
        let crits = room.critters.remove(tid);
        let emptied = CritterView { backpack: Seq::empty(), ..t };
        PlaceView {
            objects: room.objects + t.backpack,
            critters: if crits.len() > tid {
                crits.update(tid, LazzyView::Critter(emptied))
            } else {
                crits
            },
            ..room
        }
    } else {
        PlaceView { critters: room.critters.update(tid, LazzyView::Critter(t)), ..room }
    }
}

/// The positions of the critters whose names hold every word of `query`.
pub open spec fn critter_hits(cs: Seq<LazzyView>, query: Seq<Seq<char>>) -> Seq<usize> {
    matching(critter_names(cs), query, cs.len())
}

/// `attack` without a weapon: the first critter named is hit with the player's natural
/// attack.
pub open spec fn attack_plain_view(room: PlaceView, player: PlayerView, q: Seq<Seq<char>>) -> ActView {
    let hits = critter_hits(room.critters, q);
    if q.len() == 0 {
        balk(room, player, "JUST TELL ME WHAT TO ATTACK ALREADY!"@)
    } else if hits.len() == 0 {
        balk(room, player, "You cant see that."@)
    } else {
        let tid = hits[0] as int;
        let target = body(room.critters[tid]);
        let a = body(player.critter).attack;
        let t = hurt_view(target, a.dam as int);
        ActView {
            room: hit_place(room, tid, t),
            lines: seq![
                "you "@ + a.name.p + " "@ + target.desc,
                if t.hp < 0 {
                    "you kill "@ + target.desc
                } else {
                    target.hurt
                },
            ],
            ..calm(room, player)
        }
    }
}

/// The player hits the critter at `tid` with the first weapon named by `wq` in the backpack.
pub open spec fn weapon_blow_view(room: PlaceView, player: PlayerView, tid: int, wq: Seq<Seq<char>>) -> ActView {
    let target = body(room.critters[tid]);
    let pack = body(player.critter).backpack;
    let whits = object_hits(pack, wq);
    if wq.len() == 0 {
        balk(room, player, "JUST TELL ME WHAT TO USE!"@)
    } else if whits.len() == 0 {
        balk(room, player, "You cant find that that."@)
    } else {
        let w = pack[whits[0] as int];
        match w.wepon {
            Some(d) => {
                let t = hurt_view(target, d.dam as int);
                ActView {
                    room: hit_place(room, tid, t),
                    lines: seq![
                        "you "@ + d.name.p + " "@ + target.desc + " with "@ + label(w),
                        if t.hp < 0 {
                            "you kill "@ + target.desc + " with "@ + label(w)
                        } else {
                            target.hurt
                        },
                    ],
                    ..calm(room, player)
                }
            },
            None => balk(room, player, "but..."@),
        }
    }
}

/// A weapon blow as `weapon_blow_view` describes stays within `i32`.
pub open spec fn weapon_blow_fits(target: CritterView, player: PlayerView, wq: Seq<Seq<char>>) -> bool {
    let pack = body(player.critter).backpack;
    let whits = object_hits(pack, wq);
    wq.len() > 0 && whits.len() > 0 ==> match pack[whits[0] as int].wepon {
        Some(d) => i32::MIN <= target.hp - d.dam <= i32::MAX,
        None => true,
    }
}

/// `attack ... with ...`: the first critter named is hit with the first weapon named in the
/// player's backpack.
pub open spec fn attack_with_view(
    room: PlaceView,
    player: PlayerView,
    q: Seq<Seq<char>>,
    wq: Seq<Seq<char>>,
) -> ActView {
    let hits = critter_hits(room.critters, q);
    if q.len() == 0 {
        balk(room, player, "JUST TELL ME WHAT TO ATTACK ALREADY!"@)
    } else if hits.len() == 0 {
        balk(room, player, "You cant see that."@)
    } else {
        weapon_blow_view(room, player, hits[0] as int, wq)
    }
}

/// `attack`: the words are split at "with"; one part names the target, two parts name the
/// target and the weapon, anything else is refused.
pub open spec fn fight_view(room: PlaceView, player: PlayerView, rest: Seq<Seq<char>>) -> ActView {
    let parts = split_scan(rest, "with"@, rest.len());
    if parts.len() == 1 {
        attack_plain_view(room, player, parts[0])
    } else if parts.len() == 2 {
        attack_with_view(room, player, parts[0], parts[1])
    } else {
        balk(room, player, "Come ON!"@)
    }
}

/// What `attack` needs: the critters of the place hold their data, and the blow stays
/// within `i32`.
pub open spec fn fight_fits(room: PlaceView, player: PlayerView, rest: Seq<Seq<char>>) -> bool {
    let parts = split_scan(rest, "with"@, rest.len());
    (parts.len() == 1 || parts.len() == 2) ==> {
        &&& all_unpacked(room.critters)
        &&& {
            let hits = critter_hits(room.critters, parts[0]);
            parts[0].len() > 0 && hits.len() > 0 ==> {
                let target = body(room.critters[hits[0] as int]);
                if parts.len() == 1 {
                    i32::MIN <= target.hp - body(player.critter).attack.dam <= i32::MAX
                } else {
                    weapon_blow_fits(target, player, parts[1])
                }
            }
        }
    }
}

/// The words split at each "with".
fn split_at_with(ts: &Vec<String>) -> (r: Vec<Vec<String>>)
    ensures
        r.deep_view() == split_scan(ts.deep_view(), "with"@, ts@.len()),
{
    let mut parts: Vec<Vec<String>> = Vec::new();
    let mut cur: Vec<String> = Vec::new();
    let mut i: usize = 0;
    assert(cur.deep_view() =~= Seq::<Seq<char>>::empty());
    assert(parts.deep_view() =~= Seq::<Seq<Seq<char>>>::empty());
    assert(parts.deep_view().push(cur.deep_view()) =~= split_scan(ts.deep_view(), "with"@, 0));
    while i < ts.len()
        invariant
            i <= ts@.len(),
            parts.deep_view().push(cur.deep_view()) == split_scan(
                ts.deep_view(),
                "with"@,
                i as nat,
            ),
        decreases ts@.len() - i,
    {
        let ghost before = parts.deep_view().push(cur.deep_view());
        if same(&ts[i], "with") {
            let mut fresh: Vec<String> = Vec::new();
            std::mem::swap(&mut fresh, &mut cur);
            let ghost parts0 = parts.deep_view();
            parts.push(fresh);
            assert(parts.deep_view() =~= parts0.push(fresh.deep_view()));
            assert(cur.deep_view() =~= Seq::<Seq<char>>::empty());
            assert(parts.deep_view().push(cur.deep_view()) =~= before.push(Seq::empty()));
        } else {
            let w = ts[i].clone();
            let ghost cur0 = cur.deep_view();
            cur.push(w);
            assert(cur.deep_view() =~= cur0.push(w@));
            assert(parts.deep_view().push(cur.deep_view()) =~= before.update(
                before.len() - 1,
                before.last().push(ts.deep_view()[i as int]),
            ));
        }
        i = i + 1;
    }
    let ghost last = parts.deep_view().push(cur.deep_view());
    parts.push(cur);
    assert(parts.deep_view() =~= last);
    parts
}

/// The names of each critter.
fn critter_names_of(cs: &Vec<LazzyCritter>) -> (r: Vec<Vec<String>>)
    requires
        all_unpacked(critters_view(cs@)),
    ensures
        r.deep_view() == critter_names(critters_view(cs@)),
{
    let mut r: Vec<Vec<String>> = Vec::new();
    let mut i: usize = 0;
    while i < cs.len()
        invariant
            i <= cs@.len(),
            r@.len() == i,
            all_unpacked(critters_view(cs@)),
            r.deep_view() == critter_names(critters_view(cs@)).take(i as int),
        decreases cs@.len() - i,
    {
        assert(critters_view(cs@)[i as int] is Critter);
        let names = match &cs[i] {
            LazzyCritter::Critter(c) => copy_strings(&c.name),
            LazzyCritter::Name(_) => {
                proof {
                    assert(false);
                }
                Vec::new()
            },
        };
        let ghost before = r.deep_view();
        r.push(names);
        assert(r.deep_view() =~= before.push(names.deep_view()));
        assert(critter_names(critters_view(cs@)).take(i + 1) =~= critter_names(
            critters_view(cs@),
        ).take(i as int).push(body(critters_view(cs@)[i as int]).name));
        i = i + 1;
    }
    assert(critter_names(critters_view(cs@)).take(cs@.len() as int) =~= critter_names(
        critters_view(cs@),
    ));
    r
}

/// The critter at `tid`, now `target`, is put back: a dead one drops its backpack and
/// leaves, and its data goes to the critter that then stands at `tid`, if any.
fn land_blow(room: &mut Place, tid: usize, target: Critter)
    requires
        tid < old(room).critters@.len(),
    ensures
        final(room)@ == hit_place(old(room)@, tid as int, target@),
{
    let mut target = target;
    let ghost t0 = target@;
    if target.is_dead() {
        target.kill(room);
        room.critters.remove(tid);
        assert(critters_view(room.critters@) =~= critters_view(old(room).critters@).remove(
            tid as int,
        ));
    }
    if room.critters.len() > tid {
        let ghost crits0 = room.critters@;
        room.critters.set(tid, LazzyCritter::Critter(target));
        assert(critters_view(room.critters@) =~= critters_view(crits0).update(
            tid as int,
            LazzyView::Critter(target@),
        ));
    }
    assert(final(room)@ =~= hit_place(old(room)@, tid as int, t0));
}

/// The untouched critter at `tid` is put back: `target`, a copy of its data, takes its
/// place, so the place reads as it did.
fn put_back(room: &mut Place, tid: usize, target: Critter)
    requires
        tid < old(room).critters@.len(),
        old(room)@.critters[tid as int] is Critter,
        target@ == body(old(room)@.critters[tid as int]),
    ensures
        final(room).critters@ == old(room).critters@.update(tid as int, LazzyCritter::Critter(target)),
        final(room).desc == old(room).desc,
        final(room).long == old(room).long,
        final(room).ambient == old(room).ambient,
        final(room).moves == old(room).moves,
        final(room).objects == old(room).objects,
        final(room)@ == old(room)@,
{
    room.critters.set(tid, LazzyCritter::Critter(target));
    assert(critters_view(room.critters@) =~= critters_view(old(room).critters@));
    assert(final(room)@ =~= old(room)@);
}

/// Two printed lines; time passes.
fn two_lines(first: String, second: String) -> (a: Act)
    ensures
        a.lines.deep_view() == seq![first@, second@],
        a.time,
        !a.redisplay,
        !a.exit,
{
    let a = Act { lines: vec![first, second], time: true, redisplay: false, exit: false };
    assert(a.lines.deep_view() =~= seq![first@, second@]);
    a
}

/// The player (data `c`) hits the critter at `tid` (data `target`) with the natural attack.
fn strike_plain(room: &mut Place, c: &Critter, tid: usize, target: Critter) -> (a: Act)
    requires
        tid < old(room).critters@.len(),
        i32::MIN <= target.hp - c.attack.dam <= i32::MAX,
    ensures
        final(room)@ == hit_place(old(room)@, tid as int, hurt_view(target@, c.attack.dam as int)),
        a.lines.deep_view() == seq![
            "you "@ + c@.attack.name.p + " "@ + target@.desc,
            if target.hp - c.attack.dam < 0 {
                "you kill "@ + target@.desc
            } else {
                target@.hurt
            },
        ],
        a.time,
        !a.redisplay,
        !a.exit,
{
    let mut target = target;
    let mut first = text("you ");
    first.append(c.attack.name.p.as_str());
    first.append(" ");
    first.append(target.desc.as_str());
    target.hurt(c.attack.dam);
    let second = if !target.is_dead() {
        target.hurt.clone()
    } else {
        let mut line = text("you kill ");
        line.append(target.desc.as_str());
        line
    };
    land_blow(room, tid, target);
    two_lines(first, second)
}

/// The player (data `c`) hits the critter at `tid` (data `target`) with the first weapon
/// that `wq` names in the backpack.
fn strike_with(
    room: &mut Place,
    player: &Player,
    c: &Critter,
    tid: usize,
    target: Critter,
    wq: Vec<String>,
) -> (a: Act)
    requires
        tid < old(room).critters@.len(),
        old(room)@.critters[tid as int] is Critter,
        target@ == body(old(room)@.critters[tid as int]),
        player.critter is Critter,
        c@ == body(player@.critter),
        weapon_blow_fits(target@, player@, wq.deep_view()),
    ensures
        act_view(final(room)@, player@, a) == weapon_blow_view(
            old(room)@,
            player@,
            tid as int,
            wq.deep_view(),
        ),
{
    let ghost q = wq.deep_view();
    let mut target = target;
    let names = object_names_of(&c.backpack);
    let count: usize = names.len();
    assert(object_names(objects_view(c.backpack@)).len() == c.backpack@.len());
    assert(count == c.backpack@.len());
    proof {
        lemma_matching(names.deep_view(), q, count as nat);
    }
    match get_name(&names, wq) {
        NameResolves::EmptyQuery => {
            put_back(room, tid, target);
            one_line(text("JUST TELL ME WHAT TO USE!"), false)
        },
        NameResolves::Zero => {
            put_back(room, tid, target);
            one_line(text("You cant find that that."), false)
        },
        NameResolves::Results(ids) => {
            let k = ids[0];
            assert(ids@ == matching(names.deep_view(), q, count as nat));
            assert(k < count);
            let weppon = &c.backpack[k];
            match &weppon.wepon {
                Some(data) => {
                    let mut first = text("you ");
                    first.append(data.name.p.as_str());
                    first.append(" ");
                    first.append(target.desc.as_str());
                    first.append(" with ");
                    first.append(weppon.f().as_str());
                    target.hurt(data.dam);
                    let second = if !target.is_dead() {
                        target.hurt.clone()
                    } else {
                        let mut line = text("you kill ");
                        line.append(target.desc.as_str());
                        line.append(" with ");
                        line.append(weppon.f().as_str());
                        line
                    };
                    land_blow(room, tid, target);
                    two_lines(first, second)
                },
                None => {
                    put_back(room, tid, target);
                    one_line(text("but..."), false)
                },
            }
        },
    }
}

/// `attack`.
fn do_fight(room: &mut Place, player: &Player, rest: &Vec<String>) -> (a: Act)
    requires
        player.critter is Critter,
        fight_fits(old(room)@, player@, rest.deep_view()),
    ensures
        act_view(final(room)@, player@, a) == fight_view(old(room)@, player@, rest.deep_view()),
{
    let c = player.critter.unpack();
    let parts = split_at_with(rest);
    let nparts: usize = parts.len();
    if nparts == 1 || nparts == 2 {
        let names = critter_names_of(&room.critters);
        let count: usize = names.len();
        assert(critter_names(critters_view(room.critters@)).len() == room.critters@.len());
        assert(count == room.critters@.len());
        let query = copy_strings(&parts[0]);
        let ghost q = query.deep_view();
        assert(q == parts.deep_view()[0]);
        proof {
            lemma_matching(names.deep_view(), q, count as nat);
        }
        match get_name(&names, query) {
            NameResolves::EmptyQuery => one_line(
                text("JUST TELL ME WHAT TO ATTACK ALREADY!"),
                false,
            ),
            NameResolves::Zero => one_line(text("You cant see that."), false),
            NameResolves::Results(ids) => {
                let tid = ids[0];
                assert(ids@ == matching(names.deep_view(), q, count as nat));
                assert(tid < count);
                assert(old(room)@.critters[tid as int] is Critter);
                let target = room.critters[tid].unpack();
                if nparts == 1 {
                    strike_plain(room, &c, tid, target)
                } else {
                    let wq = copy_strings(&parts[1]);
                    assert(wq.deep_view() == parts.deep_view()[1]);
                    strike_with(room, player, &c, tid, target, wq)
                }
            },
        }
    } else {
        one_line(text("Come ON!"), false)
    }
}

// ---------------------------------------------------------------- one command

/// The command asks for a file to be saved or loaded: "save" or "load" with a path.
pub open spec fn asks_io(t: Seq<Seq<char>>) -> bool {
    t.len() >= 2 && (t[0] == "save"@ || t[0] == "load"@)
}

/// What acting on the command `t` (a first word and the rest) does to the current place
/// and the player.
pub open spec fn act_spec(room: PlaceView, player: PlayerView, t: Seq<Seq<char>>) -> ActView {
    let cmd = t[0];
    let rest = t.drop_first();
    if cmd == "help"@ {
        say(room, player, HELP@)
    } else if cmd == "save"@ || cmd == "load"@ {
        say(room, player, "You must specify a file path."@)
    } else if cmd == "exit"@ {
        ActView { exit: true, ..calm(room, player) }
    } else if cmd == "go"@ {
        go_view(room, player, rest)
    } else if cmd == "look"@ {
        ActView { redisplay: true, ..calm(room, player) }
    } else if cmd == "take"@ {
        take_view(room, player, rest)
    } else if cmd == "inventory"@ {
        inventory_view(room, player)
    } else if cmd == "drop"@ {
        drop_view(room, player, rest)
    } else if cmd == "eat"@ {
        eat_view(room, player, rest)
    } else if cmd == "attack"@ {
        fight_view(room, player, rest)
    } else if cmd == "time"@ {
        calm(room, player)
    } else {
        balk(room, player, "?"@)
    }
}

/// What acting on `t` needs: the player holds its data, and eating or fighting stays within
/// `i32` (fighting also needs the critters of the place to hold theirs).
pub open spec fn act_fits(room: PlaceView, player: PlayerView, t: Seq<Seq<char>>) -> bool {
    &&& player.critter is Critter
    &&& t[0] == "eat"@ ==> eat_fits(player, t.drop_first())
    &&& t[0] == "attack"@ ==> fight_fits(room, player, t.drop_first())
}

/// Acts on the command `t` in place `room`.
pub fn act(room: &mut Place, player: &mut Player, t: &Vec<String>) -> (a: Act)
    requires
        t@.len() > 0,
        !asks_io(t.deep_view()),
        act_fits(old(room)@, old(player)@, t.deep_view()),
    ensures
        act_view(final(room)@, final(player)@, a) == act_spec(old(room)@, old(player)@, t.deep_view()),
{
    let cmd = &t[0];
    let rest = words_from(t, 1);
    assert(rest.deep_view() =~= t.deep_view().drop_first());
    if same(cmd, "help") {
        one_line(text(HELP), true)
    } else if same(cmd, "save") || same(cmd, "load") {
        one_line(text("You must specify a file path."), true)
    } else if same(cmd, "exit") {
        let mut a = no_lines();
        a.exit = true;
        a
    } else if same(cmd, "go") {
        do_go(room, player, &rest)
    } else if same(cmd, "look") {
        let mut a = no_lines();
        a.redisplay = true;
        a
    } else if same(cmd, "take") {
        do_take(room, player, rest)
    } else if same(cmd, "inventory") {
        do_inventory(player)
    } else if same(cmd, "drop") {
        do_drop(room, player, rest)
    } else if same(cmd, "eat") {
        do_eat(room, player, rest)
    } else if same(cmd, "attack") {
        do_fight(room, player, &rest)
    } else if same(cmd, "time") {
        no_lines()
    } else {
        one_line(text("?"), false)
    }
}

// ---------------------------------------------------------------- the end of a turn

/// The damage that the mad critters among the first `n` of `cs` deal.
pub open spec fn strike_total(cs: Seq<LazzyView>, n: nat) -> int
    decreases n,
{
    if n == 0 {
        0
    } else {
        strike_total(cs, (n - 1) as nat) + (if body(cs[n - 1]).anoyance == Anoyance::Mad {
            body(cs[n - 1]).attack.dam as int
        } else {
            0
        })
    }
}

/// What the mad critters among the first `n` of `cs` print when they strike.
pub open spec fn strike_text(cs: Seq<LazzyView>, n: nat) -> Seq<Seq<char>>
    decreases n,
{
    if n == 0 {
        Seq::empty()
    } else {
        strike_text(cs, (n - 1) as nat) + (if body(cs[n - 1]).anoyance == Anoyance::Mad {
            seq![strike_line(body(cs[n - 1]))]
        } else {
            Seq::empty()
        })
    }
}

/// Every strike of the critters `cs` on a player with `hp` hit points stays within `i32`.
pub open spec fn strikes_fit(cs: Seq<LazzyView>, hp: int) -> bool {
    forall|n: nat| n <= cs.len() ==> i32::MIN <= hp - #[trigger] strike_total(cs, n) <= i32::MAX
}

/// What settling a turn does: the world afterwards, what it prints, whether the player died.
pub struct SettleView {
    pub world: WorldView,
    pub lines: Seq<Seq<char>>,
    pub died: bool,
}

/// Settling a turn: if time passes, each mad critter in the player's place strikes; a player
/// left below zero hit points dies; otherwise the place is shown if asked.
pub open spec fn settle_spec(w: WorldView, time: bool, redisplay: bool) -> SettleView {
    let room = w.map[w.player.location];
    let p = body(w.player.critter);
    let n = room.critters.len();
    let hp = if time {
        p.hp - strike_total(room.critters, n)
    } else {
        p.hp as int
    };
    let died = hp < 0;
    SettleView {
        world: if time {
            WorldView { player: with_body(w.player, CritterView { hp: hp as i32, ..p }), ..w }
        } else {
            w
        },
        lines: (if time {
            strike_text(room.critters, n)
        } else {
            Seq::empty()
        }) + (if died {
            seq!["you die"@]
        } else if redisplay {
            room_text(room)
        } else {
            Seq::empty()
        }),
        died,
    }
}

/// What settling a turn in `room` needs from the place and the player: the player holds
/// its data; the critters hold theirs when they act or are shown; the strikes stay within
/// `i32`.
pub open spec fn settle_ok(room: PlaceView, player: PlayerView, time: bool, redisplay: bool) -> bool {
    let p = body(player.critter);
    let hp = if time {
        p.hp - strike_total(room.critters, room.critters.len())
    } else {
        p.hp as int
    };
    &&& player.critter is Critter
    &&& time ==> all_unpacked(room.critters) && strikes_fit(room.critters, p.hp as int)
    &&& hp >= 0 && redisplay ==> all_unpacked(room.critters)
}

/// What settling a turn needs: the player's place exists, and `settle_ok` holds there.
pub open spec fn settle_fits(w: WorldView, time: bool, redisplay: bool) -> bool {
    &&& w.map.contains_key(w.player.location)
    &&& settle_ok(w.map[w.player.location], w.player, time, redisplay)
}

/// Settles a turn; tells whether the player died.
pub fn settle_turn(world: &mut World, time: bool, redisplay: bool, game_over: &mut bool) -> (r: (
    Vec<String>,
    bool,
))
    requires
        settle_fits(old(world)@, time, redisplay),
    ensures
        final(world)@ == settle_spec(old(world)@, time, redisplay).world,
        r.0.deep_view() == settle_spec(old(world)@, time, redisplay).lines,
        r.1 == settle_spec(old(world)@, time, redisplay).died,
        *final(game_over) == (*old(game_over) || r.1),
{
    let ghost w0 = world@;
    let ghost st = settle_spec(w0, time, redisplay);
    let loc = world.player.location.clone();
    let mut lines: Vec<String> = Vec::new();
    if time {
        match world.map.get(&loc) {
            Some(room) => {
                let ghost cs = room@.critters;
                let ghost player0 = world.player@;
                let ghost p0 = body(player0.critter);
                assert(player0 =~= with_body(
                    player0,
                    CritterView { hp: (p0.hp - strike_total(cs, 0)) as i32, ..p0 },
                ));
                assert(lines.deep_view() =~= strike_text(cs, 0));
                let mut i: usize = 0;
                while i < room.critters.len()
                    invariant
                        i <= cs.len(),
                        cs == room@.critters,
                        cs == w0.map[w0.player.location].critters,
                        p0 == body(w0.player.critter),
                        player0 == w0.player,
                        all_unpacked(cs),
                        strikes_fit(cs, p0.hp as int),
                        world.player@ == with_body(
                            player0,
                            CritterView { hp: (p0.hp - strike_total(cs, i as nat)) as i32, ..p0 },
                        ),
                        lines.deep_view() == strike_text(cs, i as nat),
                        world.map == old(world).map,
                        world.aliases == old(world).aliases,
                        world.critters == old(world).critters,
                    decreases cs.len() - i,
                {
                    assert(cs[i as int] is Critter);
                    let mut c = room.critters[i].unpack();
                    assert(i32::MIN <= p0.hp - strike_total(cs, (i + 1) as nat) <= i32::MAX);
                    let said = c.tick(&mut world.player);
                    let ghost before = lines.deep_view();
                    match said {
                        Some(line) => {
                            lines.push(line);
                            assert(lines.deep_view() =~= before.push(line@));
                        },
                        None => {},
                    }
                    assert(lines.deep_view() =~= strike_text(cs, (i + 1) as nat));
                    assert(world.player@ =~= with_body(
                        player0,
                        CritterView {
                            hp: (p0.hp - strike_total(cs, (i + 1) as nat)) as i32,
                            ..p0
                        },
                    ));
                    i = i + 1;
                }
                assert(i32::MIN <= p0.hp - strike_total(cs, cs.len()) <= i32::MAX);
            },
            None => {
                assert(false);
            },
        }
    } else {
        assert(lines.deep_view() =~= Seq::<Seq<char>>::empty());
    }
    let ghost room0 = w0.map[w0.player.location];
    let ghost p = body(w0.player.critter);
    let ghost hp1 = if time {
        p.hp - strike_total(room0.critters, room0.critters.len())
    } else {
        p.hp as int
    };
    assert(lines.deep_view() == (if time {
        strike_text(room0.critters, room0.critters.len())
    } else {
        Seq::empty()
    }));
    assert(world@ =~= st.world);
    let pc = world.player.critter.unpack();
    assert(pc.hp == hp1);
    if pc.hp < 0 {
        let ghost before = lines.deep_view();
        lines.push(text("you die"));
        assert(lines.deep_view() =~= st.lines);
        *game_over = true;
        return (lines, true);
    }
    if redisplay {
        match world.map.get(&loc) {
            Some(room) => {
                let mut shown = room_lines(room);
                let ghost before = lines.deep_view();
                let ghost shown_v = shown.deep_view();
                lines.append(&mut shown);
                assert(lines.deep_view() =~= before + shown_v);
                assert(lines.deep_view() =~= st.lines);
            },
            None => {
                assert(false);
            },
        }
    } else {
        assert(lines.deep_view() =~= st.lines);
    }
    (lines, false)
}

/// `extra` is nothing, or the ambient noise of `room` for some fair rolls.
pub open spec fn ambient_or_nothing(room: PlaceView, extra: Seq<Seq<char>>) -> bool {
    extra.len() == 0 || exists|rolls: Seq<u32>|
        fair_rolls(rolls, room.critters.len()) && extra == ambient_text(room, rolls)
}

/// Ends a turn with the drawn byte `byte`: settles it, and then, unless the player died,
/// adds the ambient noise of the player's place when `byte` is even.
pub fn end_turn_with(
    world: &mut World,
    time: bool,
    redisplay: bool,
    game_over: &mut bool,
    byte: u8,
) -> (lines: Vec<String>)
    requires
        settle_fits(old(world)@, time, true),
    ensures
        final(world)@ == settle_spec(old(world)@, time, redisplay).world,
        *final(game_over) == (*old(game_over) || settle_spec(old(world)@, time, redisplay).died),
        ({
            let st = settle_spec(old(world)@, time, redisplay);
            let v = lines.deep_view();
            let room = st.world.map[st.world.player.location];
            &&& v.len() >= st.lines.len()
            &&& v.subrange(0, st.lines.len() as int) == st.lines
            &&& (st.died || byte % 2 != 0) ==> v == st.lines
            &&& (!st.died && byte % 2 == 0) ==> exists|rolls: Seq<u32>|
                fair_rolls(rolls, room.critters.len()) && v.subrange(
                    st.lines.len() as int,
                    v.len() as int,
                ) == ambient_text(room, rolls)
        }),
{
    let ghost st = settle_spec(old(world)@, time, redisplay);
    assert(settle_spec(old(world)@, time, true).died == st.died);
    let (mut lines, died) = settle_turn(world, time, redisplay, game_over);
    let ghost n = lines.deep_view().len();
    if !died && byte % 2 == 0 {
        let loc = world.player.location.clone();
        match world.map.get(&loc) {
            Some(room) => {
                let mut noise = ambient_lines(room);
                let ghost before = lines.deep_view();
                let ghost noise_v = noise.deep_view();
                lines.append(&mut noise);
                assert(lines.deep_view() =~= before + noise_v);
                assert(lines.deep_view().subrange(0, n as int) =~= before);
                assert(lines.deep_view().subrange(n as int, lines.deep_view().len() as int)
                    =~= noise_v);
            },
            None => {
                assert(false);
            },
        }
    } else {
        assert(lines.deep_view().subrange(0, n as int) =~= lines.deep_view());
    }
    lines
}

/// Ends a turn: settles it, and then, unless the player died, with a chance of one in two
/// adds the ambient noise of the player's place.
pub fn end_turn(world: &mut World, time: bool, redisplay: bool, game_over: &mut bool) -> (lines:
    Vec<String>)
    requires
        settle_fits(old(world)@, time, true),
    ensures
        final(world)@ == settle_spec(old(world)@, time, redisplay).world,
        *final(game_over) == (*old(game_over) || settle_spec(old(world)@, time, redisplay).died),
        ({
            let st = settle_spec(old(world)@, time, redisplay);
            &&& lines.deep_view().len() >= st.lines.len()
            &&& lines.deep_view().subrange(0, st.lines.len() as int) == st.lines
            &&& st.died ==> lines.deep_view() == st.lines
            &&& ambient_or_nothing(
                st.world.map[st.world.player.location],
                lines.deep_view().subrange(st.lines.len() as int, lines.deep_view().len() as int),
            )
        }),
{
    let byte = random_byte();
    let lines = end_turn_with(world, time, redisplay, game_over, byte);
    proof {
        let st = settle_spec(old(world)@, time, redisplay);
        let v = lines.deep_view();
        if st.died || byte % 2 != 0 {
            assert(v.subrange(st.lines.len() as int, v.len() as int) =~= Seq::<Seq<char>>::empty());
        }
    }
    lines
}

// ---------------------------------------------------------------- a whole command

/// The world after acting in the player's place: the place and the player are replaced.
pub open spec fn after_act(w: WorldView, a: ActView) -> WorldView {
    WorldView { map: w.map.insert(w.player.location, a.room), player: a.player, ..w }
}

/// What a command line needs: when it has words, they stay words after alias expansion, the
/// player's place exists, and, unless it asks for a file, acting on it and settling the turn
/// can be done.
pub open spec fn command_fits(w: WorldView, input: Seq<char>) -> bool {
    let t = tokens(input, w.aliases);
    line_words(input).len() > 0 ==> {
        &&& t.len() > 0
        &&& w.map.contains_key(w.player.location)
        &&& !asks_io(t) ==> {
            let room = w.map[w.player.location];
            let a = act_spec(room, w.player, t);
            &&& act_fits(room, w.player, t)
            &&& settle_fits(after_act(w, a), a.time, true)
        }
    }
}

/// What a command line comes to.
pub enum Step {
    /// the turn is over; these lines are to be printed
    Done(Vec<String>),
    /// the world is to be saved to this path, and the turn then ended
    Save(String),
    /// a world is to be loaded from this path, and the turn then ended
    Load(String),
}

/// A full turn on the command `t`: act in the player's place, then end the turn. `w1`,
/// `over1` and `s` are the world, the end flag and the step that it comes to.
pub open spec fn turn_done(
    w: WorldView,
    t: Seq<Seq<char>>,
    over0: bool,
    w1: WorldView,
    over1: bool,
    s: Step,
) -> bool {
    let room = w.map[w.player.location];
    let a = act_spec(room, w.player, t);
    let mid = after_act(w, a);
    let st = settle_spec(mid, a.time, a.redisplay);
    &&& w1 == st.world
    &&& over1 == (over0 || a.exit || st.died)
    &&& s matches Step::Done(l) && {
        let v = l.deep_view();
        let k = a.lines.len() + st.lines.len();
        &&& v.len() >= k
        &&& v.subrange(0, k as int) == a.lines + st.lines
        &&& st.died ==> v.len() == k
        &&& ambient_or_nothing(
            st.world.map[st.world.player.location],
            v.subrange(k as int, v.len() as int),
        )
    }
}

/// Acts on the command `t` in the player's place, then ends the turn.
fn play_turn(t: &Vec<String>, world: &mut World, game_over: &mut bool) -> (s: Step)
    requires
        t@.len() > 0,
        !asks_io(t.deep_view()),
        old(world)@.map.contains_key(old(world)@.player.location),
        act_fits(old(world)@.map[old(world)@.player.location], old(world)@.player, t.deep_view()),
        settle_fits(
            after_act(
                old(world)@,
                act_spec(old(world)@.map[old(world)@.player.location], old(world)@.player, t.deep_view()),
            ),
            act_spec(old(world)@.map[old(world)@.player.location], old(world)@.player, t.deep_view()).time,
            true,
        ),
    ensures
        turn_done(old(world)@, t.deep_view(), *old(game_over), final(world)@, *final(game_over), s),
{
    let ghost w0 = world@;
    let loc = world.player.location.clone();
    let mut room = match world.map.insert(loc.clone(), Place::vacant()) {
        Some(r) => r,
        None => {
            proof {
                assert(false);
            }
            Place::vacant()
        },
    };
    let a = act(&mut room, &mut world.player, t);
    let _vacant = world.map.insert(loc, room);
    let ghost av = act_spec(w0.map[w0.player.location], w0.player, t.deep_view());
    assert(world.map@ =~= w0.map.insert(w0.player.location, av.room));
    assert(world@ =~= after_act(w0, av));
    if a.exit {
        *game_over = true;
    }
    let mut lines = a.lines;
    let ghost head = lines.deep_view();
    let mut rest = end_turn(world, a.time, a.redisplay, game_over);
    let ghost tail = rest.deep_view();
    lines.append(&mut rest);
    assert(lines.deep_view() =~= head + tail);
    proof {
        let st = settle_spec(after_act(w0, av), av.time, av.redisplay);
        let v = lines.deep_view();
        let k = av.lines.len() + st.lines.len();
        assert(v.subrange(0, k as int) =~= av.lines + tail.subrange(0, st.lines.len() as int));
        assert(v.subrange(k as int, v.len() as int) =~= tail.subrange(
            st.lines.len() as int,
            tail.len() as int,
        ));
    }
    Step::Done(lines)
}

/// What carrying out the command line `input` comes to: `w1`, `over1` and `s` are the world,
/// the end flag and the step afterwards. An empty line changes nothing and prints "?"; "save"
/// or "load" with a path changes nothing and is handed back; anything else is a full turn.
pub open spec fn command_done(
    w0: WorldView,
    over0: bool,
    input: Seq<char>,
    w1: WorldView,
    over1: bool,
    s: Step,
) -> bool {
    let t = tokens(input, w0.aliases);
    if line_words(input).len() == 0 {
        &&& w1 == w0
        &&& over1 == over0
        &&& s matches Step::Done(l) && l.deep_view() == seq!["?"@]
    } else if asks_io(t) {
        &&& w1 == w0
        &&& over1 == over0
        &&& t[0] == "save"@ ==> (s matches Step::Save(p) && p@ == t[1])
        &&& t[0] == "load"@ ==> (s matches Step::Load(p) && p@ == t[1])
    } else {
        turn_done(w0, t, over0, w1, over1, s)
    }
}

/// Reads a command line and carries it out: an empty line prints "?"; "save" and "load"
/// with a path are handed back to be done; anything else is acted on in the player's place,
/// and the turn is ended.
pub fn command(input_str: String, world: &mut World, game_over: &mut bool) -> (s: Step)
    requires
        command_fits(old(world)@, input_str@),
    ensures
        command_done(old(world)@, *old(game_over), input_str@, final(world)@, *final(game_over), s),
{
    proof {
        reveal_strlit("save");
        reveal_strlit("load");
        assert("save"@[0] != "load"@[0]);
        assert("save"@ != "load"@);
    }
    let ws = read_words(&input_str);
    if ws.len() < 1 {
        let lines = vec![text("?")];
        assert(lines.deep_view() =~= seq!["?"@]);
        return Step::Done(lines);
    }
    let t = parse_input(&input_str, &world.aliases);
    if t.len() >= 2 && same(&t[0], "save") {
        return Step::Save(t[1].clone());
    }
    if t.len() >= 2 && same(&t[0], "load") {
        return Step::Load(t[1].clone());
    }
    play_turn(&t, world, game_over)
}

// ---------------------------------------------------------------- checking before acting

/// Whether every critter holds its data.
fn unpacked_check(cs: &Vec<LazzyCritter>) -> (r: bool)
    ensures
        r == all_unpacked(critters_view(cs@)),
{
    let mut i: usize = 0;
    while i < cs.len()
        invariant
            i <= cs@.len(),
            forall|j: int| 0 <= j < i ==> #[trigger] critters_view(cs@)[j] is Critter,
        decreases cs@.len() - i,
    {
        match &cs[i] {
            LazzyCritter::Name(_) => {
                assert(!(critters_view(cs@)[i as int] is Critter));
                return false;
            },
            LazzyCritter::Critter(_) => {},
        }
        i = i + 1;
    }
    true
}

/// Whether the strikes of the critters `cs` on `hp` hit points all stay within `i32`.
fn strikes_check(cs: &Vec<LazzyCritter>, hp: i32) -> (r: bool)
    requires
        all_unpacked(critters_view(cs@)),
    ensures
        r == strikes_fit(critters_view(cs@), hp as int),
{
    let ghost v = critters_view(cs@);
    let mut cur: i64 = hp as i64;
    let mut i: usize = 0;
    while i < cs.len()
        invariant
            i <= cs@.len(),
            v == critters_view(cs@),
            all_unpacked(v),
            cur == hp - strike_total(v, i as nat),
            forall|n: nat| n <= i ==> i32::MIN <= hp - #[trigger] strike_total(v, n) <= i32::MAX,
        decreases cs@.len() - i,
    {
        assert(v[i as int] is Critter);
        match &cs[i] {
            LazzyCritter::Critter(c) => {
                if c.anoyance == Anoyance::Mad {
                    cur = cur - c.attack.dam as i64;
                }
            },
            LazzyCritter::Name(_) => {},
        }
        assert(cur == hp - strike_total(v, (i + 1) as nat));
        if cur < i32::MIN as i64 || cur > i32::MAX as i64 {
            assert(!(i32::MIN <= hp - strike_total(v, (i + 1) as nat) <= i32::MAX));
            return false;
        }
        i = i + 1;
    }
    true
}

/// Whether settling a turn in `room` can be done, as `settle_ok` says.
pub fn settle_check(room: &Place, player: &Player, time: bool, redisplay: bool) -> (r: bool)
    ensures
        r == settle_ok(room@, player@, time, redisplay),
{
    let c = match &player.critter {
        LazzyCritter::Critter(c) => c,
        LazzyCritter::Name(_) => {
            return false;
        },
    };
    let ghost cs = room@.critters;
    let unpacked = unpacked_check(&room.critters);
    if time {
        if !unpacked {
            return false;
        }
        if !strikes_check(&room.critters, c.hp) {
            return false;
        }
        true
    } else {
        !(c.hp >= 0 && redisplay) || unpacked
    }
}

/// Whether eating as `eat_view` describes stays within `i32`.
fn eat_check(player: &Player, rest: &Vec<String>) -> (r: bool)
    requires
        player.critter is Critter,
    ensures
        r == eat_fits(player@, rest.deep_view()),
{
    let c = player.critter.unpack();
    let names = object_names_of(&c.backpack);
    let count: usize = names.len();
    assert(object_names(objects_view(c.backpack@)).len() == c.backpack@.len());
    let query = copy_strings(rest);
    let ghost q = query.deep_view();
    proof {
        lemma_matching(names.deep_view(), q, count as nat);
    }
    match get_name(&names, query) {
        NameResolves::Results(ids) => {
            let k = ids[0];
            assert(ids@ == matching(names.deep_view(), q, count as nat));
            assert(k < count);
            if c.backpack[k].can_take {
                match c.backpack[k].food {
                    Some(x) => {
                        let total: i64 = c.hp as i64 + x as i64;
                        i32::MIN as i64 <= total && total <= i32::MAX as i64
                    },
                    None => true,
                }
            } else {
                true
            }
        },
        _ => true,
    }
}

/// Whether `attack` can be done, as `fight_fits` says.
fn fight_check(room: &Place, player: &Player, rest: &Vec<String>) -> (r: bool)
    requires
        player.critter is Critter,
    ensures
        r == fight_fits(room@, player@, rest.deep_view()),
{
    let c = player.critter.unpack();
    let parts = split_at_with(rest);
    let nparts: usize = parts.len();
    if nparts == 1 || nparts == 2 {
        if !unpacked_check(&room.critters) {
            return false;
        }
        let names = critter_names_of(&room.critters);
        let count: usize = names.len();
        assert(critter_names(critters_view(room.critters@)).len() == room.critters@.len());
        let query = copy_strings(&parts[0]);
        let ghost q = query.deep_view();
        assert(q == parts.deep_view()[0]);
        proof {
            lemma_matching(names.deep_view(), q, count as nat);
        }
        match get_name(&names, query) {
            NameResolves::Results(ids) => {
                let tid = ids[0];
                assert(ids@ == matching(names.deep_view(), q, count as nat));
                assert(tid < count);
                assert(room@.critters[tid as int] is Critter);
                let target = room.critters[tid].unpack();
                if nparts == 1 {
                    let left: i64 = target.hp as i64 - c.attack.dam as i64;
                    i32::MIN as i64 <= left && left <= i32::MAX as i64
                } else {
                    let wnames = object_names_of(&c.backpack);
                    let wcount: usize = wnames.len();
                    assert(object_names(objects_view(c.backpack@)).len() == c.backpack@.len());
                    let wq = copy_strings(&parts[1]);
                    let ghost wqv = wq.deep_view();
                    assert(wqv == parts.deep_view()[1]);
                    proof {
                        lemma_matching(wnames.deep_view(), wqv, wcount as nat);
                    }
                    match get_name(&wnames, wq) {
                        NameResolves::Results(wids) => {
                            let k = wids[0];
                            assert(wids@ == matching(wnames.deep_view(), wqv, wcount as nat));
                            assert(k < wcount);
                            match &c.backpack[k].wepon {
                                Some(d) => {
                                    let left: i64 = target.hp as i64 - d.dam as i64;
                                    i32::MIN as i64 <= left && left <= i32::MAX as i64
                                },
                                None => true,
                            }
                        },
                        _ => true,
                    }
                }
            },
            _ => true,
        }
    } else {
        true
    }
}

/// Whether acting on `t` can be done, as `act_fits` says.
fn act_check(room: &Place, player: &Player, t: &Vec<String>) -> (r: bool)
    requires
        t@.len() > 0,
    ensures
        r == act_fits(room@, player@, t.deep_view()),
{
    match &player.critter {
        LazzyCritter::Name(_) => {
            return false;
        },
        LazzyCritter::Critter(_) => {},
    }
    let rest = words_from(t, 1);
    assert(rest.deep_view() =~= t.deep_view().drop_first());
    proof {
        reveal_strlit("eat");
        reveal_strlit("attack");
        assert("eat"@[0] != "attack"@[0]);
        assert("eat"@ != "attack"@);
    }
    if same(&t[0], "eat") {
        eat_check(player, &rest)
    } else if same(&t[0], "attack") {
        fight_check(room, player, &rest)
    } else {
        true
    }
}

/// Carries out a command line as `command` does, when `command_fits` allows it; hands
/// back `None`, and changes nothing, when it does not.
pub fn try_command(input_str: String, world: &mut World, game_over: &mut bool) -> (r: Option<Step>)
    ensures
        r is None <==> !command_fits(old(world)@, input_str@),
        r is None ==> final(world)@ == old(world)@ && *final(game_over) == *old(game_over),
        r matches Some(s) ==> command_done(
            old(world)@,
            *old(game_over),
            input_str@,
            final(world)@,
            *final(game_over),
            s,
        ),
{
    let ws = read_words(&input_str);
    if ws.len() > 0 {
        let t = parse_input(&input_str, &world.aliases);
        if t.len() == 0 {
            return None;
        }
        let loc = world.player.location.clone();
        match world.map.get(&loc) {
            None => {
                return None;
            },
            Some(room0) => {
                if !(t.len() >= 2 && (same(&t[0], "save") || same(&t[0], "load"))) {
                    if !act_check(room0, &world.player, &t) {
                        return None;
                    }
                    let mut room = room0.duplicate();
                    let mut player = world.player.duplicate();
                    let a = act(&mut room, &mut player, &t);
                    let ok = if player.location == loc {
                        settle_check(&room, &player, a.time, true)
                    } else {
                        match world.map.get(&player.location) {
                            Some(there) => settle_check(there, &player, a.time, true),
                            None => false,
                        }
                    };
                    if !ok {
                        return None;
                    }
                }
            },
        }
    }
    Some(command(input_str, world, game_over))
}

/// Ends the turn after a file was saved or loaded (time passes), as `end_turn` does, when
/// `settle_fits` allows it; hands back `None`, and changes nothing, when it does not.
pub fn try_end_turn(world: &mut World, redisplay: bool, game_over: &mut bool) -> (r: Option<Vec<String>>)
    ensures
        r is None <==> !settle_fits(old(world)@, true, true),
        r is None ==> final(world)@ == old(world)@ && *final(game_over) == *old(game_over),
        r matches Some(lines) ==> {
            let st = settle_spec(old(world)@, true, redisplay);
            &&& final(world)@ == st.world
            &&& *final(game_over) == (*old(game_over) || st.died)
            &&& lines.deep_view().len() >= st.lines.len()
            &&& lines.deep_view().subrange(0, st.lines.len() as int) == st.lines
            &&& st.died ==> lines.deep_view() == st.lines
            &&& ambient_or_nothing(
                st.world.map[st.world.player.location],
                lines.deep_view().subrange(st.lines.len() as int, lines.deep_view().len() as int),
            )
        },
{
    let loc = world.player.location.clone();
    let ok = match world.map.get(&loc) {
        Some(room) => settle_check(room, &world.player, true, true),
        None => false,
    };
    if !ok {
        return None;
    }
    Some(end_turn(world, true, redisplay, game_over))
}

} // verus!
