use vstd::prelude::*;
use vstd::multiset::Multiset;
use crate::command::{
    command_done, command_fits, strip_line_end, tokens, Step, critter_hits, critter_names, drop_view, eat_fits, eat_view, fight_view, go_view, hit_place,
    line_words, object_hits, object_names, settle_spec, split_scan, strike_total, strikes_fit,
    take_view, inventory_view, strike_text, least,
};
use crate::names::{has_all, lemma_matching, matching};
use crate::text::{
    lemma_lower_twice, lemma_words_concat, lemma_words_drop_white, lemma_words_lower,
    lemma_words_spaced, lower, scan_words, spaced, white_space, words, decimal,
};
use crate::world::{
    Alignment, Anoyance, CritterView, LazzyView, ObjectView, PlaceView, PlayerView, WorldView,
    all_unpacked, body, label, looked_up, ready, ready_place,
};

verus! {

broadcast use {vstd::seq_lib::group_seq_properties, vstd::multiset::group_multiset_axioms};

/// The objects of a place and of a player's backpack, taken together.
pub open spec fn all_objects(room: PlaceView, player: PlayerView) -> Multiset<ObjectView> {
    room.objects.to_multiset().add(body(player.critter).backpack.to_multiset())
}

/// Moving the object at `k` from the sequence `from` to the end of `to` keeps the two
/// together the same.
proof fn lemma_move_object(from: Seq<ObjectView>, to: Seq<ObjectView>, k: int)
    requires
        0 <= k < from.len(),
    ensures
        from.remove(k).to_multiset().add(to.push(from[k]).to_multiset()) =~= from.to_multiset().add(
            to.to_multiset(),
        ),
{
    from.to_multiset_ensures();
    to.to_multiset_ensures();
    assert(from.to_multiset().count(from[k]) > 0);
}

/// Taking an object moves it from the place to the backpack: the objects of the place and
/// of the backpack, taken together, are the same before and after.
pub proof fn law_take_keeps_objects(room: PlaceView, player: PlayerView, query: Seq<Seq<char>>)
    requires
        player.critter is Critter,
        room.objects.len() <= usize::MAX,
    ensures
        all_objects(take_view(room, player, query).room, take_view(room, player, query).player)
            == all_objects(room, player),
{
    let hits = object_hits(room.objects, query);
    lemma_matching(object_names(room.objects), query, room.objects.len());
    if query.len() > 0 && hits.len() > 0 {
        let k = hits[0] as int;
        assert(0 <= k < room.objects.len());
        if room.objects[k].can_take {
            lemma_move_object(room.objects, body(player.critter).backpack, k);
        }
    }
}

/// Dropping an object moves it from the backpack to the place: the objects of the place and
/// of the backpack, taken together, are the same before and after.
pub proof fn law_drop_keeps_objects(room: PlaceView, player: PlayerView, query: Seq<Seq<char>>)
    requires
        player.critter is Critter,
        body(player.critter).backpack.len() <= usize::MAX,
    ensures
        all_objects(drop_view(room, player, query).room, drop_view(room, player, query).player)
            == all_objects(room, player),
{
    let pack = body(player.critter).backpack;
    let hits = object_hits(pack, query);
    lemma_matching(object_names(pack), query, pack.len());
    if query.len() > 0 && hits.len() > 0 {
        let k = hits[0] as int;
        assert(0 <= k < pack.len());
        if pack[k].can_take {
            lemma_move_object(pack, room.objects, k);
            assert(all_objects(drop_view(room, player, query).room, drop_view(room, player, query).player)
                =~= pack.remove(k).to_multiset().add(room.objects.push(pack[k]).to_multiset()));
        }
    }
}

/// What a critter carries.
pub open spec fn pack(c: LazzyView) -> Multiset<ObjectView> {
    body(c).backpack.to_multiset()
}

/// Everything the critters of a list carry, taken together.
pub open spec fn carried(cs: Seq<LazzyView>) -> Multiset<ObjectView>
    decreases cs.len(),
{
    if cs.len() == 0 {
        Multiset::empty()
    } else {
        carried(cs.drop_last()).add(pack(cs.last()))
    }
}

/// The objects lying in a place and those that its critters carry, taken together.
pub open spec fn place_objects(room: PlaceView) -> Multiset<ObjectView> {
    room.objects.to_multiset().add(carried(room.critters))
}

proof fn lemma_carried_remove(cs: Seq<LazzyView>, i: int)
    requires
        0 <= i < cs.len(),
    ensures
        carried(cs.remove(i)).add(pack(cs[i])) =~= carried(cs),
    decreases cs.len(),
{
    if i == cs.len() - 1 {
        assert(cs.remove(i) =~= cs.drop_last());
    } else {
        let dl = cs.drop_last();
        lemma_carried_remove(dl, i);
        assert(cs.remove(i).drop_last() =~= dl.remove(i));
        assert(cs.remove(i).last() == cs.last());
    }
}

proof fn lemma_carried_update(cs: Seq<LazzyView>, i: int, x: LazzyView)
    requires
        0 <= i < cs.len(),
    ensures
        carried(cs.update(i, x)).add(pack(cs[i])) =~= carried(cs).add(pack(x)),
    decreases cs.len(),
{
    let dl = cs.drop_last();
    let up = cs.update(i, x);
    assert(carried(up) == carried(up.drop_last()).add(pack(up.last())));
    assert(carried(cs) == carried(dl).add(pack(cs.last())));
    if i == cs.len() - 1 {
        assert(up.drop_last() =~= dl);
        assert(up.last() == x);
    } else {
        lemma_carried_update(dl, i, x);
        assert(up.drop_last() =~= dl.update(i, x));
        assert(up.last() == cs.last());
        assert(dl[i] == cs[i]);
    }
    let lhs = carried(up).add(pack(cs[i]));
    let rhs = carried(cs).add(pack(x));
    assert forall|v: ObjectView| #[trigger] lhs.count(v) == rhs.count(v) by {
        if i < cs.len() - 1 {
            assert(carried(dl.update(i, x)).add(pack(dl[i])).count(v) == carried(dl).add(
                pack(x),
            ).count(v));
        }
    }
}

/// Landing a blow on the critter at `tid`, now `t`, loses no object, as long as a kill does
/// not hand the dead critter's data to a following critter that carries something.
proof fn lemma_hit_keeps_objects(room: PlaceView, tid: int, t: CritterView)
    requires
        0 <= tid < room.critters.len(),
        t.backpack == body(room.critters[tid]).backpack,
        t.hp < 0 && tid + 1 < room.critters.len() ==> body(room.critters[tid + 1]).backpack.len()
            == 0,
    ensures
        place_objects(hit_place(room, tid, t)) =~= place_objects(room),
{
    let cs = room.critters;
    let after = hit_place(room, tid, t);
    if t.hp < 0 {
        let crits = cs.remove(tid);
        lemma_carried_remove(cs, tid);
        vstd::seq_lib::lemma_multiset_commutative(room.objects, t.backpack);
        assert(pack(cs[tid]) == t.backpack.to_multiset());
        if crits.len() > tid {
            let emptied = CritterView { backpack: Seq::empty(), ..t };
            lemma_carried_update(crits, tid, LazzyView::Critter(emptied));
            assert(crits[tid] == cs[tid + 1]);
            assert(body(crits[tid]).backpack =~= Seq::<ObjectView>::empty());
            assert(pack(crits[tid]) =~= Multiset::empty());
            assert(pack(LazzyView::Critter(emptied)) =~= Multiset::empty());
            let upd = crits.update(tid, LazzyView::Critter(emptied));
            assert(after.critters == upd);
            assert forall|v: ObjectView| #[trigger] carried(upd).count(v) == carried(crits).count(v) by {
                assert(carried(upd).add(pack(crits[tid])).count(v) == carried(crits).add(
                    pack(LazzyView::Critter(emptied)),
                ).count(v));
            }
            assert(carried(after.critters) =~= carried(crits));
        } else {
            assert(after.critters == crits);
        }
        assert(after.objects == room.objects + t.backpack);
    } else {
        lemma_carried_update(cs, tid, LazzyView::Critter(t));
        assert(pack(LazzyView::Critter(t)) == pack(cs[tid]));
        let upd = cs.update(tid, LazzyView::Critter(t));
        assert(after.critters == upd);
        assert forall|v: ObjectView| #[trigger] carried(upd).count(v) == carried(cs).count(v) by {
            assert(carried(upd).add(pack(cs[tid])).count(v) == carried(cs).add(
                pack(LazzyView::Critter(t)),
            ).count(v));
        }
        assert(carried(after.critters) =~= carried(cs));
    }
}

/// The position of the critter that an `attack` aims at.
pub open spec fn fight_target(room: PlaceView, rest: Seq<Seq<char>>) -> int {
    critter_hits(room.critters, split_scan(rest, "with"@, rest.len())[0])[0] as int
}

/// The attack kills its target, and the critter after the target carries something.
pub open spec fn kill_before_laden(room: PlaceView, player: PlayerView, rest: Seq<Seq<char>>) -> bool {
    let tid = fight_target(room, rest);
    &&& fight_view(room, player, rest).room.critters.len() < room.critters.len()
    &&& tid + 1 < room.critters.len()
    &&& body(room.critters[tid + 1]).backpack.len() > 0
}

/// An attack loses no object and leaves the player as it was: the objects lying in the
/// place and those that its critters carry, taken together, are the same before and after.
/// This holds except when the attack kills its target and the critter after the target
/// carries something: that critter then takes over the dead one's data, and its own
/// backpack is lost.
pub proof fn law_attack_keeps_objects(room: PlaceView, player: PlayerView, rest: Seq<Seq<char>>)
    requires
        room.critters.len() <= usize::MAX,
        !kill_before_laden(room, player, rest),
    ensures
        fight_view(room, player, rest).player == player,
        place_objects(fight_view(room, player, rest).room) == place_objects(room),
{
    let parts = split_scan(rest, "with"@, rest.len());
    if parts.len() == 1 || parts.len() == 2 {
        let q = parts[0];
        let cs = room.critters;
        let hits = critter_hits(cs, q);
        lemma_matching(critter_names(cs), q, cs.len());
        if q.len() > 0 && hits.len() > 0 {
            let tid = hits[0] as int;
            assert(0 <= tid < cs.len());
            assert(tid == fight_target(room, rest));
            let target = body(cs[tid]);
            if parts.len() == 1 {
                let t = CritterView {
                    anoyance: Anoyance::Mad,
                    hp: (target.hp - body(player.critter).attack.dam) as i32,
                    ..target
                };
                if t.hp < 0 {
                    assert(hit_place(room, tid, t).critters.len() < cs.len());
                }
                lemma_hit_keeps_objects(room, tid, t);
            } else {
                let wq = parts[1];
                let pk = body(player.critter).backpack;
                let whits = object_hits(pk, wq);
                if wq.len() > 0 && whits.len() > 0 {
                    match pk[whits[0] as int].wepon {
                        Some(d) => {
                            let t = CritterView {
                                anoyance: Anoyance::Mad,
                                hp: (target.hp - d.dam) as i32,
                                ..target
                            };
                            if t.hp < 0 {
                                assert(hit_place(room, tid, t).critters.len() < cs.len());
                            }
                            lemma_hit_keeps_objects(room, tid, t);
                        },
                        None => {},
                    }
                }
            }
        }
    }
}

/// Eating never leaves the player with more hit points than both the maximum and what the
/// player had before, and it takes at most one thing out of the backpack; the place does
/// not change.
pub proof fn law_eat_bounded(room: PlaceView, player: PlayerView, query: Seq<Seq<char>>)
    requires
        player.critter is Critter,
        body(player.critter).backpack.len() <= usize::MAX,
        eat_fits(player, query),
    ensures
        ({
            let a = eat_view(room, player, query);
            let before = body(player.critter);
            let after = body(a.player.critter);
            &&& a.room == room
            &&& after.hp <= before.hp || after.hp <= before.max_hp
            &&& after.max_hp == before.max_hp
            &&& after.backpack.len() == before.backpack.len() || after.backpack.len() + 1
                == before.backpack.len()
        }),
{
    let pack = body(player.critter).backpack;
    lemma_matching(object_names(pack), query, pack.len());
}

/// Moving goes only along an exit of the current place: afterwards the player stands where
/// it stood, or at the destination of one of the place's exits; nothing else changes.
pub proof fn law_go_follows_exits(room: PlaceView, player: PlayerView, rest: Seq<Seq<char>>)
    ensures
        ({
            let a = go_view(room, player, rest);
            &&& a.room == room
            &&& a.player.critter == player.critter
            &&& a.player.location == player.location || exists|d: Seq<char>|
                #[trigger] room.moves.contains_key(d) && room.moves[d] == a.player.location
        }),
{
    if rest.len() > 0 && room.moves.contains_key(rest[0]) {
        assert(room.moves.contains_key(rest[0]));
    }
}

/// Settling a turn changes nothing but the player's hit points, and, as long as no critter
/// deals negative damage, never raises them.
pub proof fn law_settle_only_hurts(w: WorldView, time: bool, redisplay: bool)
    requires
        w.player.critter is Critter,
        time ==> strikes_fit(
            w.map[w.player.location].critters,
            body(w.player.critter).hp as int,
        ),
        forall|i: int|
            0 <= i < w.map[w.player.location].critters.len() ==> body(
                #[trigger] w.map[w.player.location].critters[i],
            ).attack.dam >= 0,
    ensures
        ({
            let st = settle_spec(w, time, redisplay);
            let before = body(w.player.critter);
            let after = body(st.world.player.critter);
            &&& st.world.map == w.map
            &&& st.world.aliases == w.aliases
            &&& st.world.critters == w.critters
            &&& st.world.player.location == w.player.location
            &&& st.world.player.critter is Critter
            &&& after == CritterView { hp: after.hp, ..before }
            &&& after.hp <= before.hp
        }),
{
    let cs = w.map[w.player.location].critters;
    lemma_strikes_nonnegative(cs, cs.len());
    if time {
        assert(i32::MIN <= body(w.player.critter).hp - strike_total(cs, cs.len()) <= i32::MAX);
    }
}

proof fn lemma_strikes_nonnegative(cs: Seq<LazzyView>, n: nat)
    requires
        n <= cs.len(),
        forall|i: int| 0 <= i < cs.len() ==> body(#[trigger] cs[i]).attack.dam >= 0,
    ensures
        strike_total(cs, n) >= 0,
    decreases n,
{
    if n > 0 {
        lemma_strikes_nonnegative(cs, (n - 1) as nat);
        assert(body(cs[n - 1]).attack.dam >= 0);
    }
}

/// Every word that splitting finds is non-empty and holds no whitespace.
pub proof fn law_words_are_words(s: Seq<char>)
    ensures
        forall|i: int|
            0 <= i < words(s).len() ==> #[trigger] words(s)[i].len() > 0 && forall|j: int|
                0 <= j < words(s)[i].len() ==> !white_space(#[trigger] words(s)[i][j]),
{
    lemma_scan_words(s, s.len());
}

proof fn lemma_scan_words(s: Seq<char>, n: nat)
    requires
        n <= s.len(),
    ensures
        forall|i: int|
            0 <= i < scan_words(s, n).0.len() ==> #[trigger] scan_words(s, n).0[i].len() > 0
                && forall|j: int|
                0 <= j < scan_words(s, n).0[i].len() ==> !white_space(
                    #[trigger] scan_words(s, n).0[i][j],
                ),
        forall|j: int|
            0 <= j < scan_words(s, n).1.len() ==> !white_space(#[trigger] scan_words(s, n).1[j]),
    decreases n,
{
    if n > 0 {
        lemma_scan_words(s, (n - 1) as nat);
        let prev = scan_words(s, (n - 1) as nat);
        let cur = scan_words(s, n);
        let c = s[n - 1];
        if white_space(c) {
            if prev.1.len() > 0 {
                assert(cur.0 == prev.0.push(prev.1));
                assert forall|i: int| 0 <= i < cur.0.len() implies #[trigger] cur.0[i].len() > 0
                    && forall|j: int| 0 <= j < cur.0[i].len() ==> !white_space(#[trigger] cur.0[i][j]) by {
                    if i < prev.0.len() {
                        assert(cur.0[i] == prev.0[i]);
                    } else {
                        assert(cur.0[i] == prev.1);
                    }
                }
            }
        } else {
            assert(cur.0 == prev.0);
            assert(cur.1 == prev.1.push(c));
            assert forall|j: int| 0 <= j < cur.1.len() implies !white_space(#[trigger] cur.1[j]) by {
                if j < prev.1.len() {
                    assert(cur.1[j] == prev.1[j]);
                }
            }
        }
    }
}

/// The words of a command line hold no ASCII upper-case letter.
pub proof fn law_words_lower_case(input: Seq<char>)
    ensures
        forall|i: int, j: int|
            0 <= i < line_words(input).len() && 0 <= j < line_words(input)[i].len() ==> !(
            'A' <= #[trigger] line_words(input)[i][j] && line_words(input)[i][j] <= 'Z'),
{
}

/// Taking the line end off changes no word.
proof fn lemma_words_strip(s: Seq<char>)
    ensures
        words(strip_line_end(s)) == words(s),
{
    let a = if s.len() > 0 && s.last() == '\n' {
        lemma_words_drop_white(s);
        s.drop_last()
    } else {
        s
    };
    if a.len() > 0 && a.last() == '\r' {
        lemma_words_drop_white(a);
    }
}

/// A command does not depend on letter case or on how the words are spaced: two lines
/// with the same lower-cased words (a line end included or not) stand for the same words,
/// ask the same of the world, and allow the same outcomes.
pub proof fn law_command_ignores_case_and_spacing(
    w: WorldView,
    over0: bool,
    s1: Seq<char>,
    s2: Seq<char>,
    w1: WorldView,
    over1: bool,
    st: Step,
)
    requires
        words(s1).map_values(|x: Seq<char>| lower(x)) == words(s2).map_values(
            |x: Seq<char>| lower(x),
        ),
    ensures
        line_words(s1) == line_words(s2),
        tokens(s1, w.aliases) == tokens(s2, w.aliases),
        command_fits(w, s1) == command_fits(w, s2),
        command_done(w, over0, s1, w1, over1, st) == command_done(w, over0, s2, w1, over1, st),
{
    lemma_words_strip(s1);
    lemma_words_strip(s2);
}

/// An alias stands for its words: a line whose first word is an alias acts as the line
/// made of the alias's words followed by the line's other words, as long as the alias is
/// lower-case, has a word, and its first word is no alias itself.
pub proof fn law_alias_expands(
    w: WorldView,
    over0: bool,
    input: Seq<char>,
    w1: WorldView,
    over1: bool,
    st: Step,
)
    requires
        line_words(input).len() > 0,
        w.aliases.contains_key(line_words(input)[0]),
        words(w.aliases[line_words(input)[0]]).len() > 0,
        lower(w.aliases[line_words(input)[0]]) == w.aliases[line_words(input)[0]],
        !w.aliases.contains_key(words(w.aliases[line_words(input)[0]])[0]),
    ensures
        ({
            let x = w.aliases[line_words(input)[0]];
            let input2 = x + seq![' '] + spaced(line_words(input).drop_first());
            &&& line_words(input2) == words(x) + line_words(input).drop_first()
            &&& tokens(input2, w.aliases) == tokens(input, w.aliases)
            &&& command_fits(w, input2) == command_fits(w, input)
            &&& command_done(w, over0, input2, w1, over1, st) == command_done(
                w,
                over0,
                input,
                w1,
                over1,
                st,
            )
        }),
{
    let lw = line_words(input);
    let x = w.aliases[lw[0]];
    let rest = lw.drop_first();
    let input2 = x + seq![' '] + spaced(rest);
    let stripped = strip_line_end(input);
    // the words of a command line are non-empty, hold no whitespace, and are lower-case
    lemma_words_lower(stripped);
    law_words_are_words(lower(stripped));
    assert forall|i: int|
        0 <= i < rest.len() implies #[trigger] rest[i].len() > 0 && forall|j: int|
            0 <= j < rest[i].len() ==> !white_space(#[trigger] rest[i][j]) by {
        assert(rest[i] == words(lower(stripped))[i + 1]);
    }
    lemma_words_spaced(rest);
    lemma_words_concat(x, spaced(rest));
    lemma_words_strip(input2);
    lemma_words_lower(x);
    assert forall|i: int| 0 <= i < rest.len() implies lower(#[trigger] rest[i]) == rest[i] by {
        assert(rest[i] == lower(words(stripped)[i + 1]));
        lemma_lower_twice(words(stripped)[i + 1]);
    }
    assert(rest.map_values(|v: Seq<char>| lower(v)) =~= rest);
    assert((words(x) + rest).map_values(|v: Seq<char>| lower(v)) =~= words(x).map_values(
        |v: Seq<char>| lower(v),
    ) + rest.map_values(|v: Seq<char>| lower(v)));
    assert(line_words(input2) == words(x) + rest);
    assert((words(x) + rest)[0] == words(x)[0]);
}

/// Making the critters of a place ready leaves every critter there holding its data, and
/// every evil one mad.
pub proof fn law_ready_critters(p: PlaceView, table: Map<Seq<char>, CritterView>)
    ensures
        all_unpacked(ready_place(p, table).critters),
        forall|i: int|
            0 <= i < ready_place(p, table).critters.len() && body(
                #[trigger] ready_place(p, table).critters[i],
            ).alignment == Alignment::Evil ==> body(ready_place(p, table).critters[i]).anoyance
                == Anoyance::Mad,
        ready_place(p, table).critters.len() == p.critters.len(),
{
}

/// Looking a critter up twice is the same as looking it up once, and afterwards it holds its
/// data.
pub proof fn law_lookup_once(c: LazzyView, table: Map<Seq<char>, CritterView>)
    ensures
        looked_up(looked_up(c, table), table) == looked_up(c, table),
        looked_up(c, table) is Critter,
{
}

/// The data written into a critter with `mutate` is the data that `unpack` reads back.
pub proof fn law_unpack_after_mutate(new: CritterView)
    ensures
        body(LazzyView::Critter(new)) == new,
        LazzyView::Critter(new) is Critter,
{
}

/// Reading a table after `Dict::insert` gave a name a value (`insert` makes the view
/// `m.insert(k, v)`, and `get` reads the view): the name is there with that value, and every
/// other name keeps its value and whether it is there.
pub proof fn law_read_after_write<V>(m: Map<Seq<char>, V>, k: Seq<char>, v: V)
    ensures
        m.insert(k, v).contains_key(k),
        m.insert(k, v)[k] == v,
        forall|k2: Seq<char>|
            k2 != k ==> (#[trigger] m.insert(k, v).contains_key(k2) == m.contains_key(k2)) && (
            m.contains_key(k2) ==> m.insert(k, v)[k2] == m[k2]),
{
}

/// Looking a thing up finds an entry exactly when its names hold every word of the query,
/// whatever the order of the words.
pub proof fn law_lookup_needs_every_word(
    context: Seq<Seq<Seq<char>>>,
    words: Seq<Seq<char>>,
    i: int,
)
    requires
        0 <= i < context.len(),
        context.len() <= usize::MAX,
    ensures
        matching(context, words, context.len()).contains(i as usize) <==> (forall|j: int|
            0 <= j < words.len() ==> #[trigger] context[i].contains(words[j])),
{
    lemma_matching(context, words, context.len());
    assert(matching(context, words, context.len()).contains(i as usize) == has_all(
        context[i],
        words,
    ));
}

/// The inventory prints the hit points out of the maximum, then one line for each thing in
/// the backpack, in order; nothing changes and time passes.
pub proof fn law_inventory_lists_everything(room: PlaceView, player: PlayerView)
    ensures
        ({
            let a = inventory_view(room, player);
            let c = body(player.critter);
            &&& a.lines.len() == 1 + c.backpack.len()
            &&& a.lines[0] == "HP : "@ + decimal(c.hp as int) + "/"@ + decimal(c.max_hp as int)
            &&& forall|i: int|
                0 <= i < c.backpack.len() ==> #[trigger] a.lines[i + 1] == "you have "@
                    + c.backpack[i].desc
            &&& a.room == room
            &&& a.player == player
            &&& a.time
            &&& !a.exit
        }),
{
}

/// The first thing in the backpack whose names hold every word of `query` is found at `k`.
pub open spec fn first_named(pack: Seq<ObjectView>, query: Seq<Seq<char>>, k: int) -> bool {
    &&& 0 <= k < pack.len()
    &&& forall|j: int| 0 <= j < query.len() ==> #[trigger] pack[k].names.contains(query[j])
    &&& forall|i: int|
        0 <= i < k ==> exists|j: int|
            0 <= j < query.len() && !(#[trigger] pack[i].names).contains(query[j])
}

/// Eating the first food that the words name uses up that object and no other: the backpack
/// afterwards is the old one with that object taken out at its place, the player gains its
/// food value up to the maximum, and the place does not change.
pub proof fn law_eat_uses_up_the_named_food(
    room: PlaceView,
    player: PlayerView,
    query: Seq<Seq<char>>,
    k: int,
)
    requires
        player.critter is Critter,
        body(player.critter).backpack.len() <= usize::MAX,
        query.len() > 0,
        first_named(body(player.critter).backpack, query, k),
        body(player.critter).backpack[k].can_take,
        body(player.critter).backpack[k].food is Some,
        eat_fits(player, query),
    ensures
        ({
            let c = body(player.critter);
            let pack = c.backpack;
            let o = pack[k];
            let x = o.food->0;
            let a = eat_view(room, player, query);
            let after = body(a.player.critter);
            &&& a.player.critter is Critter
            &&& after.backpack == pack.remove(k)
            &&& after.backpack.to_multiset() == pack.to_multiset().remove(o)
            &&& after.hp == least(c.max_hp as int, c.hp + x)
            &&& after.max_hp == c.max_hp
            &&& a.room == room
            &&& a.lines == seq!["you eat "@ + o.desc + " for "@ + decimal(x as int)]
            &&& a.time
        }),
{
    let pack = body(player.critter).backpack;
    let names = object_names(pack);
    lemma_matching(names, query, pack.len());
    let hits = object_hits(pack, query);
    assert(names[k] == pack[k].names);
    assert(has_all(names[k], query));
    assert(hits.contains(k as usize));
    let p = choose|p: int| 0 <= p < hits.len() && hits[p] == k as usize;
    assert(hits[0] <= k) by {
        if p > 0 {
            assert(hits[0] < hits[p]);
        }
    }
    let h = hits[0] as int;
    assert(has_all(names[h], query));
    if h < k {
        let j = choose|j: int| 0 <= j < query.len() && !(#[trigger] pack[h].names).contains(query[j]);
        assert(names[h] == pack[h].names);
        assert(names[h].contains(query[j]));
    }
    assert(h == k);
    pack.to_multiset_ensures();
}

/// A weapon blow that lands takes time: when `attack ... with ...` finds its target and a
/// weapon, the target loses the weapon's damage and gets mad (or dies, dropping its backpack
/// into the place), two lines are printed, and time passes, so the mad critters of the place
/// strike afterwards.
pub proof fn law_weapon_blow_takes_time(
    room: PlaceView,
    player: PlayerView,
    rest: Seq<Seq<char>>,
    q: Seq<Seq<char>>,
    wq: Seq<Seq<char>>,
)
    requires
        split_scan(rest, "with"@, rest.len()) == seq![q, wq],
        q.len() > 0,
        wq.len() > 0,
        room.critters.len() <= usize::MAX,
        body(player.critter).backpack.len() <= usize::MAX,
        critter_hits(room.critters, q).len() > 0,
        object_hits(body(player.critter).backpack, wq).len() > 0,
        body(player.critter).backpack[object_hits(body(player.critter).backpack, wq)[0] as int].wepon is Some,
        ({
            let target = body(room.critters[critter_hits(room.critters, q)[0] as int]);
            let pack = body(player.critter).backpack;
            let d = pack[object_hits(pack, wq)[0] as int].wepon->0;
            i32::MIN <= target.hp - d.dam <= i32::MAX
        }),
    ensures
        ({
            let a = fight_view(room, player, rest);
            let tid = critter_hits(room.critters, q)[0] as int;
            let target = body(room.critters[tid]);
            let pack = body(player.critter).backpack;
            let w = pack[object_hits(pack, wq)[0] as int];
            let d = w.wepon->0;
            &&& a.time
            &&& !a.exit
            &&& a.player == player
            &&& a.lines.len() == 2
            &&& a.lines[0] == "you "@ + d.name.p + " "@ + target.desc + " with "@ + label(w)
            &&& target.hp - d.dam >= 0 ==> {
                &&& a.room.critters.len() == room.critters.len()
                &&& body(a.room.critters[tid]).hp == target.hp - d.dam
                &&& body(a.room.critters[tid]).anoyance == Anoyance::Mad
                &&& a.room.objects == room.objects
                &&& a.lines[1] == target.hurt
            }
            &&& target.hp - d.dam < 0 ==> {
                &&& a.room.critters.len() + 1 == room.critters.len()
                &&& a.room.objects == room.objects + target.backpack
                &&& a.lines[1] == "you kill "@ + target.desc + " with "@ + label(w)
            }
        }),
{
    lemma_matching(critter_names(room.critters), q, room.critters.len());
    let pack = body(player.critter).backpack;
    lemma_matching(object_names(pack), wq, pack.len());
}

/// A bare-handed blow that lands takes time: when `attack` finds its target, the target
/// loses the player's natural damage and gets mad (or dies, dropping its backpack into the
/// place), two lines are printed, and time passes.
pub proof fn law_plain_blow_takes_time(
    room: PlaceView,
    player: PlayerView,
    rest: Seq<Seq<char>>,
    q: Seq<Seq<char>>,
)
    requires
        split_scan(rest, "with"@, rest.len()) == seq![q],
        q.len() > 0,
        room.critters.len() <= usize::MAX,
        critter_hits(room.critters, q).len() > 0,
        i32::MIN <= body(room.critters[critter_hits(room.critters, q)[0] as int]).hp - body(
            player.critter,
        ).attack.dam <= i32::MAX,
    ensures
        ({
            let a = fight_view(room, player, rest);
            let tid = critter_hits(room.critters, q)[0] as int;
            let target = body(room.critters[tid]);
            let at = body(player.critter).attack;
            &&& a.time
            &&& !a.exit
            &&& a.player == player
            &&& a.lines.len() == 2
            &&& a.lines[0] == "you "@ + at.name.p + " "@ + target.desc
            &&& target.hp - at.dam >= 0 ==> {
                &&& a.room.critters.len() == room.critters.len()
                &&& body(a.room.critters[tid]).hp == target.hp - at.dam
                &&& body(a.room.critters[tid]).anoyance == Anoyance::Mad
                &&& a.room.objects == room.objects
                &&& a.lines[1] == target.hurt
            }
            &&& target.hp - at.dam < 0 ==> {
                &&& a.room.critters.len() + 1 == room.critters.len()
                &&& a.room.objects == room.objects + target.backpack
                &&& a.lines[1] == "you kill "@ + target.desc
            }
        }),
{
    lemma_matching(critter_names(room.critters), q, room.critters.len());
}

proof fn lemma_strikes_prefix(cs: Seq<LazzyView>, x: LazzyView, n: nat)
    requires
        n <= cs.len(),
    ensures
        strike_total(cs.push(x), n) == strike_total(cs, n),
        strike_text(cs.push(x), n) == strike_text(cs, n),
    decreases n,
{
    if n > 0 {
        lemma_strikes_prefix(cs, x, (n - 1) as nat);
        assert(cs.push(x)[n - 1] == cs[n - 1]);
    }
}

/// The world with critter `c` added after the others in the player's place.
pub open spec fn with_critter_added(w: WorldView, c: CritterView) -> WorldView {
    let loc = w.player.location;
    let room = w.map[loc];
    WorldView {
        map: w.map.insert(
            loc,
            PlaceView { critters: room.critters.push(LazzyView::Critter(c)), ..room },
        ),
        ..w
    }
}

/// When time passes in a place without critters, nothing strikes: the player keeps its hit
/// points and nothing is printed (the place is not to be shown, and the player lives).
pub proof fn law_settle_without_critters(w: WorldView)
    requires
        w.map.contains_key(w.player.location),
        w.map[w.player.location].critters.len() == 0,
        w.player.critter is Critter,
        body(w.player.critter).hp >= 0,
    ensures
        settle_spec(w, true, false).world == w,
        settle_spec(w, true, false).lines == Seq::<Seq<char>>::empty(),
        !settle_spec(w, true, false).died,
{
    assert(settle_spec(w, true, false).world.player =~= w.player);
    assert(settle_spec(w, true, false).world =~= w);
}

/// Every mad critter of the place strikes when time passes: adding a critter after the
/// others takes its damage off the player's hit points and adds its strike line after the
/// others' when it is mad, and changes neither when it is chill.
pub proof fn law_each_mad_critter_strikes(w: WorldView, c: CritterView)
    requires
        w.map.contains_key(w.player.location),
        w.player.critter is Critter,
        strikes_fit(
            with_critter_added(w, c).map[w.player.location].critters,
            body(w.player.critter).hp as int,
        ),
        !settle_spec(w, true, false).died,
        !settle_spec(with_critter_added(w, c), true, false).died,
    ensures
        ({
            let st = settle_spec(w, true, false);
            let st2 = settle_spec(with_critter_added(w, c), true, false);
            let mad = c.anoyance == Anoyance::Mad;
            &&& body(st2.world.player.critter).hp == body(st.world.player.critter).hp - (if mad {
                c.attack.dam as int
            } else {
                0
            })
            &&& st2.lines == st.lines + (if mad {
                seq![c.desc + " "@ + c.attack.name.s + " you."@]
            } else {
                Seq::empty()
            })
            &&& st2.world.player.location == st.world.player.location
            &&& st2.world.player.critter is Critter
        }),
{
    let loc = w.player.location;
    let cs = w.map[loc].critters;
    let x = LazzyView::Critter(c);
    let w2 = with_critter_added(w, c);
    assert(w2.map[loc].critters == cs.push(x));
    let n = cs.len();
    lemma_strikes_prefix(cs, x, n);
    assert(cs.push(x)[n as int] == x);
    assert(strike_total(cs.push(x), n + 1) == strike_total(cs, n) + (if c.anoyance
        == Anoyance::Mad {
        c.attack.dam as int
    } else {
        0
    }));
    let hp = body(w.player.critter).hp;
    assert forall|k: nat| k <= n implies i32::MIN <= hp - #[trigger] strike_total(cs, k) <= i32::MAX by {
        lemma_strikes_prefix(cs, x, k);
        assert(i32::MIN <= hp - strike_total(cs.push(x), k) <= i32::MAX);
    }
    assert(i32::MIN <= hp - strike_total(cs.push(x), n + 1) <= i32::MAX);
    assert(i32::MIN <= hp - strike_total(cs, n) <= i32::MAX);
    let st = settle_spec(w, true, false);
    let st2 = settle_spec(w2, true, false);
    assert(st.lines =~= strike_text(cs, n));
    assert(st2.lines =~= strike_text(cs.push(x), n + 1));
}

} // verus!
