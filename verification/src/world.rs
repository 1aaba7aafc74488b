use vstd::prelude::*;
use crate::dict::Dict;
use crate::chance::roll_below;
use crate::text::text;

verus! {

/// The forms of a verb, to avoid grammar errors: punch, punches, punched.
#[derive(Debug, Clone, PartialEq, Eq)]
pub struct Action {
    pub p: String,
    pub s: String,
    pub pt: String,
}

/// The default behaviour of critters.
#[derive(Debug, Clone, Copy, PartialEq, Eq, Structural)]
pub enum Alignment {
    /// chill unless attacked
    Fine,
    /// always mad
    Evil,
}

/// The current mood of a critter.
#[derive(Debug, Clone, Copy, PartialEq, Eq, Structural)]
pub enum Anoyance {
    /// sits around
    Chill,
    /// attacks
    Mad,
}

impl Default for Anoyance {
    fn default() -> (r: Self)
        ensures
            r == Anoyance::Chill,
    {
        Anoyance::Chill
    }
}

/// The natural attack of a critter that has no items.
#[derive(Debug, Clone, PartialEq, Eq)]
pub struct Attack {
    pub name: Action,
    pub dam: i32,
}

/// The data of a critter.
#[derive(Debug, Clone, PartialEq, Eq)]
pub struct Critter {
    /// the natural attack
    pub attack: Attack,
    /// the hit points
    pub hp: i32,
    pub max_hp: i32,
    /// the description
    pub desc: String,
    /// the names
    pub name: Vec<String>,
    /// the noise made by the critter
    pub noise: Option<String>,
    pub anoyance: Anoyance,
    pub alignment: Alignment,
    /// the noise made when hurt
    pub hurt: String,
    pub backpack: Vec<Object>,
}

/// A critter, either named (to be looked up) or with its data.
#[derive(Debug, Clone, PartialEq, Eq)]
pub enum LazzyCritter {
    /// the name to look up
    Name(String),
    /// the data
    Critter(Critter),
}

/// An item.
#[derive(Debug, Clone, PartialEq, Eq)]
pub struct Object {
    pub desc: String,
    pub can_take: bool,
    pub names: Vec<String>,
    pub wepon: Option<Attack>,
    pub food: Option<i32>,
}

/// A location.
#[derive(Debug)]
pub struct Place {
    pub desc: String,
    pub long: String,
    pub ambient: Option<String>,
    pub moves: Dict<String>,
    pub objects: Vec<Object>,
    pub critters: Vec<LazzyCritter>,
}

/// The player.
#[derive(Debug, Clone, PartialEq, Eq)]
pub struct Player {
    /// the critter that holds all other data
    pub critter: LazzyCritter,
    pub location: String,
}

/// All game data.
#[derive(Debug)]
pub struct World {
    pub map: Dict<Place>,
    pub aliases: Dict<String>,
    pub player: Player,
    pub critters: Dict<Critter>,
}

// ---------------------------------------------------------------- models

/// The content of an `Action`.
#[verifier::ext_equal]
pub struct ActionView {
    pub p: Seq<char>,
    pub s: Seq<char>,
    pub pt: Seq<char>,
}

/// The content of an `Attack`.
#[verifier::ext_equal]
pub struct AttackView {
    pub name: ActionView,
    pub dam: i32,
}

/// The content of an `Object`.
#[verifier::ext_equal]
pub struct ObjectView {
    pub desc: Seq<char>,
    pub can_take: bool,
    pub names: Seq<Seq<char>>,
    pub wepon: Option<AttackView>,
    pub food: Option<i32>,
}

/// The content of a `Critter`.
#[verifier::ext_equal]
pub struct CritterView {
    pub attack: AttackView,
    pub hp: i32,
    pub max_hp: i32,
    pub desc: Seq<char>,
    pub name: Seq<Seq<char>>,
    pub noise: Option<Seq<char>>,
    pub anoyance: Anoyance,
    pub alignment: Alignment,
    pub hurt: Seq<char>,
    pub backpack: Seq<ObjectView>,
}

/// The content of a `LazzyCritter`.
#[verifier::ext_equal]
pub enum LazzyView {
    Name(Seq<char>),
    Critter(CritterView),
}

/// The content of a `Place`.
#[verifier::ext_equal]
pub struct PlaceView {
    pub desc: Seq<char>,
    pub long: Seq<char>,
    pub ambient: Option<Seq<char>>,
    pub moves: Map<Seq<char>, Seq<char>>,
    pub objects: Seq<ObjectView>,
    pub critters: Seq<LazzyView>,
}

/// The content of a `Player`.
#[verifier::ext_equal]
pub struct PlayerView {
    pub critter: LazzyView,
    pub location: Seq<char>,
}

/// The content of a `World`.
#[verifier::ext_equal]
pub struct WorldView {
    pub map: Map<Seq<char>, PlaceView>,
    pub aliases: Map<Seq<char>, Seq<char>>,
    pub player: PlayerView,
    pub critters: Map<Seq<char>, CritterView>,
}

impl View for Action {
    type V = ActionView;

    open spec fn view(&self) -> ActionView {
        ActionView { p: self.p@, s: self.s@, pt: self.pt@ }
    }
}

impl View for Attack {
    type V = AttackView;

    open spec fn view(&self) -> AttackView {
        AttackView { name: self.name@, dam: self.dam }
    }
}

/// The content of an optional attack.
pub open spec fn attack_view(a: Option<Attack>) -> Option<AttackView> {
    match a {
        Some(x) => Some(x@),
        None => None,
    }
}

impl View for Object {
    type V = ObjectView;

    open spec fn view(&self) -> ObjectView {
        ObjectView {
            desc: self.desc@,
            can_take: self.can_take,
            names: self.names.deep_view(),
            wepon: attack_view(self.wepon),
            food: self.food,
        }
    }
}

/// The contents of a list of objects.
pub open spec fn objects_view(v: Seq<Object>) -> Seq<ObjectView> {
    v.map_values(|o: Object| o@)
}

impl View for Critter {
    type V = CritterView;

    open spec fn view(&self) -> CritterView {
        CritterView {
            attack: self.attack@,
            hp: self.hp,
            max_hp: self.max_hp,
            desc: self.desc@,
            name: self.name.deep_view(),
            noise: self.noise.deep_view(),
            anoyance: self.anoyance,
            alignment: self.alignment,
            hurt: self.hurt@,
            backpack: objects_view(self.backpack@),
        }
    }
}

impl View for LazzyCritter {
    type V = LazzyView;

    open spec fn view(&self) -> LazzyView {
        match self {
            LazzyCritter::Name(n) => LazzyView::Name(n@),
            LazzyCritter::Critter(c) => LazzyView::Critter(c@),
        }
    }
}

/// The contents of a list of critters.
pub open spec fn critters_view(v: Seq<LazzyCritter>) -> Seq<LazzyView> {
    v.map_values(|c: LazzyCritter| c@)
}

impl View for Place {
    type V = PlaceView;

    open spec fn view(&self) -> PlaceView {
        PlaceView {
            desc: self.desc@,
            long: self.long@,
            ambient: self.ambient.deep_view(),
            moves: self.moves@,
            objects: objects_view(self.objects@),
            critters: critters_view(self.critters@),
        }
    }
}

impl View for Player {
    type V = PlayerView;

    open spec fn view(&self) -> PlayerView {
        PlayerView { critter: self.critter@, location: self.location@ }
    }
}

impl View for World {
    type V = WorldView;

    open spec fn view(&self) -> WorldView {
        WorldView {
            map: self.map@,
            aliases: self.aliases@,
            player: self.player@,
            critters: self.critters@,
        }
    }
}

/// The data of a critter that has it (and an arbitrary value for a named one).
pub open spec fn body(c: LazzyView) -> CritterView {
    match c {
        LazzyView::Critter(x) => x,
        LazzyView::Name(_) => arbitrary(),
    }
}

/// Every critter of `cs` holds its data.
pub open spec fn all_unpacked(cs: Seq<LazzyView>) -> bool {
    forall|i: int| 0 <= i < cs.len() ==> #[trigger] cs[i] is Critter
}

// ---------------------------------------------------------------- copies

pub(crate) fn copy_strings(v: &Vec<String>) -> (r: Vec<String>)
    ensures
        r.deep_view() == v.deep_view(),
{
    let mut r: Vec<String> = Vec::new();
    let mut i: usize = 0;
    while i < v.len()
        invariant
            i <= v.len(),
            r@.len() == i,
            r.deep_view() == v.deep_view().take(i as int),
        decreases v.len() - i,
    {
        let ghost before = r@;
        assert(forall|k: int| 0 <= k < i ==> before[k]@ == #[trigger] v.deep_view().take(i as int)[k]);
        let item = v[i].clone();
        r.push(item);
        assert(r@ == before.push(item));
        assert(r.deep_view() =~= v.deep_view().take(i + 1)) by {
            assert forall|k: int| 0 <= k < i + 1 implies r.deep_view()[k] == v.deep_view()[k] by {
                if k < i {
                    assert(r@[k] == before[k]);
                    assert(before[k]@ == v.deep_view().take(i as int)[k]);
                } else {
                    assert(r@[k] == item);
                }
            }
        }
        i = i + 1;
    }
    assert(v.deep_view().take(v.len() as int) =~= v.deep_view());
    r
}

fn copy_opt_string(v: &Option<String>) -> (r: Option<String>)
    ensures
        r.deep_view() == v.deep_view(),
{
    match v {
        Some(s) => Some(s.clone()),
        None => None,
    }
}

fn copy_objects(v: &Vec<Object>) -> (r: Vec<Object>)
    ensures
        objects_view(r@) == objects_view(v@),
{
    let mut r: Vec<Object> = Vec::new();
    let mut i: usize = 0;
    while i < v.len()
        invariant
            i <= v.len(),
            r@.len() == i,
            objects_view(r@) == objects_view(v@).take(i as int),
        decreases v.len() - i,
    {
        let ghost before = r@;
        assert(forall|k: int| 0 <= k < i ==> before[k]@ == #[trigger] objects_view(v@).take(i as int)[k]);
        let item = v[i].duplicate();
        r.push(item);
        assert(r@ == before.push(item));
        assert(objects_view(r@) =~= objects_view(v@).take(i + 1)) by {
            assert forall|k: int| 0 <= k < i + 1 implies objects_view(r@)[k] == objects_view(v@)[k] by {
                if k < i {
                    assert(r@[k] == before[k]);
                    assert(before[k]@ == objects_view(v@).take(i as int)[k]);
                } else {
                    assert(r@[k] == item);
                }
            }
        }
        i = i + 1;
    }
    assert(objects_view(v@).take(v.len() as int) =~= objects_view(v@));
    r
}

impl Action {
    /// A copy with the same content.
    pub fn duplicate(&self) -> (r: Action)
        ensures
            r@ == self@,
    {
        Action { p: self.p.clone(), s: self.s.clone(), pt: self.pt.clone() }
    }
}

impl Attack {
    /// A copy with the same content.
    pub fn duplicate(&self) -> (r: Attack)
        ensures
            r@ == self@,
    {
        Attack { name: self.name.duplicate(), dam: self.dam }
    }
}

impl Object {
    /// A copy with the same content.
    pub fn duplicate(&self) -> (r: Object)
        ensures
            r@ == self@,
    {
        let wepon = match &self.wepon {
            Some(a) => Some(a.duplicate()),
            None => None,
        };
        Object {
            desc: self.desc.clone(),
            can_take: self.can_take,
            names: copy_strings(&self.names),
            wepon,
            food: self.food,
        }
    }
}

impl Critter {
    /// A copy with the same content.
    pub fn duplicate(&self) -> (r: Critter)
        ensures
            r@ == self@,
    {
        Critter {
            attack: self.attack.duplicate(),
            hp: self.hp,
            max_hp: self.max_hp,
            desc: self.desc.clone(),
            name: copy_strings(&self.name),
            noise: copy_opt_string(&self.noise),
            anoyance: self.anoyance,
            alignment: self.alignment,
            hurt: self.hurt.clone(),
            backpack: copy_objects(&self.backpack),
        }
    }
}

} // verus!

verus! {

// ---------------------------------------------------------------- behaviour

/// The content of `Critter::default()`.
pub open spec fn blank_critter() -> CritterView {
    CritterView {
        attack: AttackView {
            name: ActionView { p: Seq::empty(), s: Seq::empty(), pt: Seq::empty() },
            dam: 0,
        },
        hp: 0,
        max_hp: 1,
        desc: Seq::empty(),
        name: seq![Seq::empty()],
        noise: None,
        anoyance: Anoyance::Chill,
        alignment: Alignment::Fine,
        hurt: Seq::empty(),
        backpack: Seq::empty(),
    }
}

impl Default for Critter {
    fn default() -> (r: Self)
        ensures
            r@ == blank_critter(),
    {
        let r = Critter {
            attack: Attack {
                name: Action { s: String::new(), p: String::new(), pt: String::new() },
                dam: 0,
            },
            hp: 0,
            name: vec![String::new()],
            max_hp: 1,
            desc: String::new(),
            noise: None,
            anoyance: Anoyance::Chill,
            alignment: Alignment::Fine,
            hurt: String::new(),
            backpack: Vec::new(),
        };
        assert(r@.name =~= blank_critter().name);
        assert(r@.backpack =~= blank_critter().backpack);
        r
    }
}

/// How an object is named to the player: its description, a space, and "[WPN]" for a weapon.
pub open spec fn label(o: ObjectView) -> Seq<char> {
    o.desc + " "@ + (if o.wepon is Some {
        "[WPN]"@
    } else {
        ""@
    })
}

impl Object {
    /// The name shown for the object.
    pub fn f(&self) -> (r: String)
        ensures
            r@ == label(self@),
    {
        let mut r = self.desc.clone();
        r.append(" ");
        if self.wepon.is_some() {
            r.append("[WPN]");
        } else {
            r.append("");
        }
        r
    }
}

/// A critter after looking it up in `table`: a named one gets the data that `table` has for
/// its name; one that holds its data keeps it.
pub open spec fn looked_up(c: LazzyView, table: Map<Seq<char>, CritterView>) -> LazzyView {
    match c {
        LazzyView::Name(n) => LazzyView::Critter(table[n]),
        LazzyView::Critter(_) => c,
    }
}

impl LazzyCritter {
    /// The data of the critter; a named critter is first looked up in `ct` and replaced by
    /// the data found there.
    pub fn unpack_init(&mut self, ct: &Dict<Critter>) -> (r: Critter)
        requires
            *old(self) is Name ==> ct@.contains_key((*old(self))->Name_0@),
        ensures
            *final(self) is Critter,
            final(self)@ == looked_up(old(self)@, ct@),
            *old(self) is Critter ==> *final(self) == *old(self),
            *old(self) is Name ==> (*final(self))->Critter_0@ == ct@[(*old(self))->Name_0@],
            r@ == (*final(self))->Critter_0@,
    {
        match self {
            LazzyCritter::Name(x) => {
                let found = ct.get(x);
                let t = match found {
                    Some(a) => a.duplicate(),
                    None => {
                        proof {
                            assert(false);
                        }
                        Critter::default()
                    },
                };
                *self = LazzyCritter::Critter(t.duplicate());
                self.unpack()
            },
            LazzyCritter::Critter(x) => x.duplicate(),
        }
    }

    /// The data of a critter that holds it.
    pub fn unpack(&self) -> (r: Critter)
        requires
            *self is Critter,
        ensures
            r@ == (*self)->Critter_0@,
    {
        match self {
            LazzyCritter::Critter(x) => x.duplicate(),
            LazzyCritter::Name(_) => {
                proof {
                    assert(false);
                }
                Critter::default()
            },
        }
    }

    /// Replaces the data of a critter that holds it.
    pub fn mutate(&mut self, new: Critter)
        requires
            *old(self) is Critter,
        ensures
            *final(self) == LazzyCritter::Critter(new),
    {
        *self = LazzyCritter::Critter(new);
    }
}

/// The player after critter `c` has had its turn: a mad critter strikes the player with its
/// natural attack.
pub open spec fn strike(c: CritterView, p: PlayerView) -> PlayerView {
    if c.anoyance == Anoyance::Mad {
        PlayerView {
            critter: LazzyView::Critter(
                CritterView { hp: (body(p.critter).hp - c.attack.dam) as i32, ..body(p.critter) },
            ),
            ..p
        }
    } else {
        p
    }
}

/// What a mad critter's strike prints.
pub open spec fn strike_line(c: CritterView) -> Seq<char> {
    c.desc + " "@ + c.attack.name.s + " you."@
}

/// A strike by `c` on a player with `hp` hit points stays within `i32`.
pub open spec fn strike_fits(c: CritterView, hp: int) -> bool {
    i32::MIN <= hp - c.attack.dam <= i32::MAX
}

impl Critter {
    /// The critter's turn: a mad critter strikes the player and says so.
    pub fn tick(&mut self, player: &mut Player) -> (said: Option<String>)
        requires
            old(self).anoyance == Anoyance::Mad ==> old(player).critter is Critter && strike_fits(
                old(self)@,
                body(old(player)@.critter).hp as int,
            ),
        ensures
            *final(self) == *old(self),
            final(player)@ == strike(old(self)@, old(player)@),
            old(self).anoyance == Anoyance::Chill ==> *final(player) == *old(player),
            said.deep_view() == (if old(self).anoyance == Anoyance::Mad {
                Some(strike_line(old(self)@))
            } else {
                None
            }),
    {
        match self.anoyance {
            Anoyance::Chill => None,
            Anoyance::Mad => {
                let mut line = self.desc.clone();
                line.append(" ");
                line.append(self.attack.name.s.as_str());
                line.append(" you.");
                let mut c = player.critter.unpack();
                c.hp = c.hp - self.attack.dam;
                player.critter.mutate(c);
                assert(final(player)@.critter =~= strike(old(self)@, old(player)@).critter);
                Some(line)
            },
        }
    }

    /// The critter is hit for `dam`: it gets mad and loses `dam` hit points.
    pub fn hurt(&mut self, dam: i32)
        requires
            i32::MIN <= old(self).hp - dam <= i32::MAX,
        ensures
            *final(self) == (Critter {
                anoyance: Anoyance::Mad,
                hp: (old(self).hp - dam) as i32,
                ..*old(self)
            }),
    {
        self.anoyance = Anoyance::Mad;
        self.hp = self.hp - dam;
    }

    /// The critter is dead once its hit points drop below zero.
    pub fn is_dead(&self) -> (r: bool)
        ensures
            r == (self.hp < 0),
    {
        self.hp < 0
    }

    /// The critter dies in `p`: everything in its backpack drops into the place.
    pub fn kill(&mut self, p: &mut Place)
        ensures
            final(p).objects@ == old(p).objects@ + old(self).backpack@,
            final(p)@ == (PlaceView {
                objects: old(p)@.objects + old(self)@.backpack,
                ..old(p)@
            }),
            final(self).backpack@ == Seq::<Object>::empty(),
            final(self)@ == (CritterView { backpack: Seq::empty(), ..old(self)@ }),
    {
        p.objects.append(&mut self.backpack);
        assert(final(p)@.objects =~= old(p)@.objects + old(self)@.backpack);
        assert(final(self)@.backpack =~= Seq::<ObjectView>::empty());
    }
}

} // verus!

verus! {

/// What showing a place prints: its description, its long description, a line for each
/// object, an empty line, and a line for each critter.
pub open spec fn room_text(p: PlaceView) -> Seq<Seq<char>> {
    seq![p.desc, p.long] + p.objects.map_values(|o: ObjectView| "you see a "@ + label(o) + "."@)
        + seq![Seq::<char>::empty()] + p.critters.map_values(
        |c: LazzyView| "you see a "@ + body(c).desc + "."@,
    )
}

/// What one critter adds to the ambient noise for `roll`: its noise when it has one and
/// the roll is zero.
pub open spec fn noise_text(c: LazzyView, roll: u32) -> Seq<Seq<char>> {
    match body(c).noise {
        Some(n) => if roll == 0 {
            seq!["* "@ + n]
        } else {
            Seq::empty()
        },
        None => Seq::empty(),
    }
}

/// The noise of the first `n` critters of `cs` for the rolls `rolls`.
pub open spec fn noises_text(cs: Seq<LazzyView>, rolls: Seq<u32>, n: nat) -> Seq<Seq<char>>
    decreases n,
{
    if n == 0 {
        Seq::empty()
    } else {
        noises_text(cs, rolls, (n - 1) as nat) + noise_text(cs[n - 1], rolls[n - 1])
    }
}

/// The ambient noise of a place for the rolls `rolls` (one per critter): the place's own
/// ambient line, then the noise of each critter whose roll is zero.
pub open spec fn ambient_text(p: PlaceView, rolls: Seq<u32>) -> Seq<Seq<char>> {
    (match p.ambient {
        Some(a) => seq![a],
        None => Seq::empty(),
    }) + noises_text(p.critters, rolls, p.critters.len())
}

/// Rolls of a five-sided die, one for each of `n` critters.
pub open spec fn fair_rolls(rolls: Seq<u32>, n: nat) -> bool {
    rolls.len() == n && forall|i: int| 0 <= i < n ==> rolls[i] < 5
}

/// "you see a " + `tail` + ".".
fn seen_line(tail: &String) -> (r: String)
    ensures
        r@ == "you see a "@ + tail@ + "."@,
{
    let mut r = text("you see a ");
    r.append(tail.as_str());
    r.append(".");
    r
}

/// The lines that show a place.
pub fn room_lines(spot: &Place) -> (r: Vec<String>)
    requires
        all_unpacked(spot@.critters),
    ensures
        r.deep_view() == room_text(spot@),
{
    let mut r: Vec<String> = Vec::new();
    r.push(spot.desc.clone());
    r.push(spot.long.clone());
    let ghost head = r.deep_view();
    assert(head =~= seq![spot@.desc, spot@.long]);
    let ghost objs = spot@.objects.map_values(|o: ObjectView| "you see a "@ + label(o) + "."@);
    let mut i: usize = 0;
    while i < spot.objects.len()
        invariant
            i <= spot.objects@.len(),
            r.deep_view() == head + objs.take(i as int),
            objs == spot@.objects.map_values(|o: ObjectView| "you see a "@ + label(o) + "."@),
        decreases spot.objects@.len() - i,
    {
        let line = seen_line(&spot.objects[i].f());
        let ghost before = r.deep_view();
        r.push(line);
        assert(r.deep_view() =~= before.push(line@));
        assert(head + objs.take(i + 1) =~= (head + objs.take(i as int)).push(objs[i as int]));
        i = i + 1;
    }
    assert(objs.take(spot.objects@.len() as int) =~= objs);
    let ghost before_blank = r.deep_view();
    r.push(String::new());
    assert(r.deep_view() =~= before_blank.push(Seq::<char>::empty()));
    let ghost mid = r.deep_view();
    let ghost crits = spot@.critters.map_values(|c: LazzyView| "you see a "@ + body(c).desc + "."@);
    let mut j: usize = 0;
    while j < spot.critters.len()
        invariant
            j <= spot.critters@.len(),
            r.deep_view() == mid + crits.take(j as int),
            crits == spot@.critters.map_values(|c: LazzyView| "you see a "@ + body(c).desc + "."@),
            all_unpacked(spot@.critters),
        decreases spot.critters@.len() - j,
    {
        assert(spot@.critters[j as int] is Critter);
        let c = spot.critters[j].unpack();
        let line = seen_line(&c.desc);
        let ghost before = r.deep_view();
        r.push(line);
        assert(r.deep_view() =~= before.push(line@));
        assert(mid + crits.take(j + 1) =~= (mid + crits.take(j as int)).push(crits[j as int]));
        j = j + 1;
    }
    assert(crits.take(spot.critters@.len() as int) =~= crits);
    assert(r.deep_view() =~= room_text(spot@));
    r
}

/// The ambient noise of a place for given rolls, one per critter.
pub fn ambient_lines_with(spot: &Place, rolls: &Vec<u32>) -> (r: Vec<String>)
    requires
        all_unpacked(spot@.critters),
        rolls@.len() == spot@.critters.len(),
    ensures
        r.deep_view() == ambient_text(spot@, rolls@),
{
    let mut r: Vec<String> = Vec::new();
    match &spot.ambient {
        Some(x) => {
            r.push(x.clone());
        },
        None => {},
    }
    let ghost head = r.deep_view();
    assert(head =~= (match spot@.ambient {
        Some(a) => seq![a],
        None => Seq::<Seq<char>>::empty(),
    }));
    let mut i: usize = 0;
    while i < spot.critters.len()
        invariant
            i <= spot.critters@.len(),
            rolls@.len() == spot@.critters.len(),
            all_unpacked(spot@.critters),
            r.deep_view() == head + noises_text(spot@.critters, rolls@, i as nat),
        decreases spot.critters@.len() - i,
    {
        assert(spot@.critters[i as int] is Critter);
        let c = spot.critters[i].unpack();
        let ghost before = r.deep_view();
        match &c.noise {
            Some(a) => {
                if rolls[i] == 0 {
                    let mut line = text("* ");
                    line.append(a.as_str());
                    r.push(line);
                    assert(r.deep_view() =~= before.push(line@));
                }
            },
            None => {},
        }
        assert(r.deep_view() =~= head + noises_text(spot@.critters, rolls@, (i + 1) as nat));
        i = i + 1;
    }
    r
}

/// The ambient noise of a place: the place's ambient line, then the noise of each critter
/// that has one, with a chance of one in five each.
pub fn ambient_lines(spot: &Place) -> (r: Vec<String>)
    requires
        all_unpacked(spot@.critters),
    ensures
        exists|rolls: Seq<u32>|
            fair_rolls(rolls, spot@.critters.len()) && r.deep_view() == ambient_text(spot@, rolls),
{
    let mut rolls: Vec<u32> = Vec::new();
    let mut i: usize = 0;
    while i < spot.critters.len()
        invariant
            i <= spot.critters@.len(),
            fair_rolls(rolls@, i as nat),
            all_unpacked(spot@.critters),
        decreases spot.critters@.len() - i,
    {
        assert(spot@.critters[i as int] is Critter);
        let noisy = match &spot.critters[i] {
            LazzyCritter::Critter(c) => c.noise.is_some(),
            LazzyCritter::Name(_) => false,
        };
        let roll: u32 = if noisy {
            roll_below(5)
        } else {
            1
        };
        rolls.push(roll);
        i = i + 1;
    }
    let r = ambient_lines_with(spot, &rolls);
    assert(fair_rolls(rolls@, spot@.critters.len()) && r.deep_view() == ambient_text(spot@, rolls@));
    r
}

} // verus!

verus! {

impl Place {
    /// A place with the given descriptions, exits, objects and critters.
    pub fn new(
        desc: String,
        long: String,
        ambient: Option<String>,
        moves: Dict<String>,
        objects: Vec<Object>,
        critters: Vec<LazzyCritter>,
    ) -> (r: Place)
        ensures
            r.desc == desc,
            r.long == long,
            r.ambient == ambient,
            r.moves == moves,
            r.objects == objects,
            r.critters == critters,
    {
        Place { desc, long, ambient, moves, objects, critters }
    }

    /// A place with empty descriptions and nothing in it.
    pub fn vacant() -> (r: Place)
        ensures
            r@ == (PlaceView {
                desc: Seq::empty(),
                long: Seq::empty(),
                ambient: None,
                moves: Map::empty(),
                objects: Seq::empty(),
                critters: Seq::empty(),
            }),
    {
        let r = Place {
            desc: String::new(),
            long: String::new(),
            ambient: None,
            moves: Dict::new(),
            objects: Vec::new(),
            critters: Vec::new(),
        };
        assert(r@ =~= (PlaceView {
            desc: Seq::empty(),
            long: Seq::empty(),
            ambient: None,
            moves: Map::empty(),
            objects: Seq::empty(),
            critters: Seq::empty(),
        }));
        r
    }
}

} // verus!

verus! {

impl LazzyCritter {
    /// A copy with the same content.
    pub fn duplicate(&self) -> (r: LazzyCritter)
        ensures
            r@ == self@,
    {
        match self {
            LazzyCritter::Name(n) => LazzyCritter::Name(n.clone()),
            LazzyCritter::Critter(c) => LazzyCritter::Critter(c.duplicate()),
        }
    }
}

impl Player {
    /// A copy with the same content.
    pub fn duplicate(&self) -> (r: Player)
        ensures
            r@ == self@,
    {
        Player { critter: self.critter.duplicate(), location: self.location.clone() }
    }
}

impl Place {
    /// A copy with the same content.
    pub fn duplicate(&self) -> (r: Place)
        ensures
            r@ == self@,
    {
        let mut critters: Vec<LazzyCritter> = Vec::new();
        let mut i: usize = 0;
        while i < self.critters.len()
            invariant
                i <= self.critters@.len(),
                critters@.len() == i,
                critters_view(critters@) == critters_view(self.critters@).take(i as int),
            decreases self.critters@.len() - i,
        {
            let ghost before = critters@;
            assert(forall|k: int|
                0 <= k < i ==> before[k]@ == #[trigger] critters_view(self.critters@).take(
                    i as int,
                )[k]);
            let item = self.critters[i].duplicate();
            critters.push(item);
            assert(critters@ == before.push(item));
            assert(critters_view(critters@) =~= critters_view(self.critters@).take(i + 1)) by {
                assert forall|k: int| 0 <= k < i + 1 implies critters_view(critters@)[k]
                    == critters_view(self.critters@)[k] by {
                    if k < i {
                        assert(critters@[k] == before[k]);
                        assert(critters_view(critters@)[k] == critters@[k]@);
                        assert(before[k]@ == critters_view(self.critters@).take(i as int)[k]);
                    } else {
                        assert(critters@[k] == item);
                        assert(critters_view(critters@)[k] == item@);
                        assert(critters_view(self.critters@)[k] == self.critters@[k]@);
                    }
                }
            }
            i = i + 1;
        }
        assert(critters_view(self.critters@).take(self.critters@.len() as int) =~= critters_view(
            self.critters@,
        ));
        let r = Place {
            desc: self.desc.clone(),
            long: self.long.clone(),
            ambient: copy_opt_string(&self.ambient),
            moves: self.moves.duplicate(),
            objects: copy_objects(&self.objects),
            critters,
        };
        assert(r@ =~= self@);
        r
    }
}

} // verus!

verus! {

// ---------------------------------------------------------------- setting a world up

/// A critter made ready to play: a named one is replaced by the data that `table` has for
/// the name, and an evil one starts out mad.
pub open spec fn ready(c: LazzyView, table: Map<Seq<char>, CritterView>) -> LazzyView {
    let d = match c {
        LazzyView::Name(n) => table[n],
        LazzyView::Critter(x) => x,
    };
    LazzyView::Critter(
        if d.alignment == Alignment::Evil {
            CritterView { anoyance: Anoyance::Mad, ..d }
        } else {
            d
        },
    )
}

/// A place with each of its critters made ready.
pub open spec fn ready_place(p: PlaceView, table: Map<Seq<char>, CritterView>) -> PlaceView {
    PlaceView { critters: p.critters.map_values(|c: LazzyView| ready(c, table)), ..p }
}

/// Every named critter of `cs` has data in `table`.
pub open spec fn names_in(cs: Seq<LazzyView>, table: Map<Seq<char>, CritterView>) -> bool {
    forall|i: int|
        0 <= i < cs.len() && #[trigger] cs[i] is Name ==> table.contains_key(cs[i]->Name_0)
}

/// Every named critter of every place has data in the world's table of critters.
pub open spec fn names_known(w: WorldView) -> bool {
    forall|k: Seq<char>| #[trigger] w.map.contains_key(k) ==> names_in(w.map[k].critters, w.critters)
}

/// Makes every critter of `place` ready to play.
fn ready_critters(place: &mut Place, table: &Dict<Critter>)
    requires
        names_in(old(place)@.critters, table@),
    ensures
        final(place)@ == ready_place(old(place)@, table@),
{
    let ghost cs0 = old(place)@.critters;
    let mut i: usize = 0;
    while i < place.critters.len()
        invariant
            i <= place.critters@.len(),
            cs0 == old(place)@.critters,
            critters_view(place.critters@).len() == cs0.len(),
            names_in(cs0, table@),
            forall|j: int| 0 <= j < i ==> #[trigger] critters_view(place.critters@)[j] == ready(cs0[j], table@),
            forall|j: int| i <= j < cs0.len() ==> #[trigger] critters_view(place.critters@)[j] == cs0[j],
            place.desc == old(place).desc,
            place.long == old(place).long,
            place.ambient == old(place).ambient,
            place.moves == old(place).moves,
            place.objects == old(place).objects,
        decreases place.critters@.len() - i,
    {
        assert(critters_view(place.critters@)[i as int] == cs0[i as int]);
        let mut c = place.critters[i].duplicate();
        assert(c@ == cs0[i as int]);
        c.unpack_init(table);
        let d = c.unpack();
        if d.alignment == Alignment::Evil {
            let mut new = c.unpack();
            new.anoyance = Anoyance::Mad;
            c.mutate(new);
        }
        assert(c@ == ready(cs0[i as int], table@));
        let ghost before = place.critters@;
        let ghost cv = c@;
        place.critters.set(i, c);
        assert forall|j: int| 0 <= j < cs0.len() implies #[trigger] critters_view(place.critters@)[j]
            == (if j <= i { ready(cs0[j], table@) } else { cs0[j] }) by {
            if j != i {
                assert(place.critters@[j] == before[j]);
                assert(critters_view(before)[j] == before[j]@);
            } else {
                assert(place.critters@[j]@ == cv);
            }
        }
        i = i + 1;
    }
    assert(final(place)@ =~= ready_place(old(place)@, table@));
}

impl World {
    /// Makes every critter of every place ready to play: named critters are looked up in the
    /// table of critters, and evil ones start out mad.
    pub fn init_critters(&mut self)
        requires
            names_known(old(self)@),
        ensures
            final(self)@ == (WorldView {
                map: old(self)@.map.map_values(|p: PlaceView| ready_place(p, old(self)@.critters)),
                ..old(self)@
            }),
    {
        proof {
            use_type_invariant(&self.map);
            self.map.lemma_keys();
        }
        let ghost m0 = self.map@;
        let ghost keys = self.map.key_list();
        let ghost table = self.critters@;
        let n: usize = self.map.len();
        let mut i: usize = 0;
        while i < n
            invariant
                i <= n,
                n == keys.len(),
                keys == old(self).map.key_list(),
                m0 == old(self)@.map,
                table == old(self)@.critters,
                self.map.key_list() == keys,
                forall|k: Seq<char>| m0.contains_key(k) <==> keys.contains(k),
                forall|a: int, b: int| 0 <= a < b < keys.len() ==> keys[a] != keys[b],
                forall|k: Seq<char>| #[trigger] self.map@.contains_key(k) <==> m0.contains_key(k),
                forall|j: int| 0 <= j < i ==> #[trigger] self.map@[keys[j]] == ready_place(m0[keys[j]], table),
                forall|j: int| i <= j < n ==> #[trigger] self.map@[keys[j]] == m0[keys[j]],
                names_known(old(self)@),
                self.critters == old(self).critters,
                self.aliases == old(self).aliases,
                self.player == old(self).player,
            decreases n - i,
        {
            let key = self.map.key_at(i).clone();
            assert(keys.contains(key@));
            let taken = self.map.insert(key.clone(), Place::vacant());
            let mut place = match taken {
                Some(p) => p,
                None => {
                    proof {
                        assert(false);
                    }
                    Place::vacant()
                },
            };
            assert(place@ == m0[keys[i as int]]);
            ready_critters(&mut place, &self.critters);
            let _vacant = self.map.insert(key, place);
            assert forall|j: int| 0 <= j < n && j != i implies #[trigger] self.map@[keys[j]] == (if j < i {
                ready_place(m0[keys[j]], table)
            } else {
                m0[keys[j]]
            }) by {
                assert(keys[j] != keys[i as int]);
            }
            i = i + 1;
        }
        proof {
            assert forall|k: Seq<char>| #[trigger] self.map@.contains_key(k) implies self.map@[k]
                == ready_place(m0[k], table) by {
                assert(m0.contains_key(k));
                assert(keys.contains(k));
                let j = choose|j: int| 0 <= j < keys.len() && keys[j] == k;
                assert(self.map@[keys[j]] == ready_place(m0[keys[j]], table));
            }
            assert(self.map@ =~= m0.map_values(|p: PlaceView| ready_place(p, table)));
        }
    }

    /// Whether every named critter of every place has data in the table of critters.
    pub fn critters_known(&self) -> (r: bool)
        ensures
            r == names_known(self@),
    {
        proof {
            use_type_invariant(&self.map);
            self.map.lemma_keys();
        }
        let ghost keys = self.map.key_list();
        let n: usize = self.map.len();
        let mut i: usize = 0;
        while i < n
            invariant
                i <= n,
                n == keys.len(),
                keys == self.map.key_list(),
                forall|k: Seq<char>| self.map@.contains_key(k) <==> keys.contains(k),
                forall|j: int| 0 <= j < i ==> names_in(#[trigger] self.map@[keys[j]].critters, self.critters@),
            decreases n - i,
        {
            let place = self.map.value_at(i);
            let mut k: usize = 0;
            while k < place.critters.len()
                invariant
                    i < n,
                    n == keys.len(),
                    keys == self.map.key_list(),
                    forall|k: Seq<char>| self.map@.contains_key(k) <==> keys.contains(k),
                    k <= place.critters@.len(),
                    place@ == self.map@[keys[i as int]],
                    forall|j: int|
                        0 <= j < k && #[trigger] critters_view(place.critters@)[j] is Name
                            ==> self.critters@.contains_key(critters_view(place.critters@)[j]->Name_0),
                decreases place.critters@.len() - k,
            {
                match &place.critters[k] {
                    LazzyCritter::Name(name) => {
                        if !self.critters.contains_key(name) {
                            let ghost cs = critters_view(place.critters@);
                            assert(cs[k as int] == LazzyView::Name(name@));
                            assert(cs[k as int] is Name);
                            assert(!self.critters@.contains_key(cs[k as int]->Name_0));
                            assert(!names_in(cs, self.critters@));
                            assert(keys.contains(keys[i as int]));
                            assert(self.map@.contains_key(keys[i as int]));
                            return false;
                        }
                    },
                    LazzyCritter::Critter(_) => {},
                }
                k = k + 1;
            }
            assert(names_in(self.map@[keys[i as int]].critters, self.critters@));
            i = i + 1;
        }
        proof {
            assert forall|k: Seq<char>| #[trigger] self.map@.contains_key(k) implies names_in(
                self.map@[k].critters,
                self.critters@,
            ) by {
                assert(keys.contains(k));
                let j = choose|j: int| 0 <= j < keys.len() && keys[j] == k;
                assert(names_in(self.map@[keys[j]].critters, self.critters@));
            }
        }
        true
    }
}

} // verus!

verus! {

/// The aliases that the game starts with.
pub open spec fn starting_aliases() -> Map<Seq<char>, Seq<char>> {
    map![
        "e"@ => "go east"@,
        "s"@ => "go south"@,
        "n"@ => "go north"@,
        "u"@ => "go up"@,
        "w"@ => "go west"@,
        "d"@ => "go down"@,
        "t"@ => "take"@,
        "q"@ => "exit"@,
        "?"@ => "help"@,
        "l"@ => "look"@,
        "i"@ => "inventory"@,
    ]
}

/// The aliases that the game starts with: single letters for moving and the common commands.
pub fn default_aliases() -> (d: Dict<String>)
    ensures
        d@ == starting_aliases(),
{
    let mut d: Dict<String> = Dict::new();
    let _ = d.insert(text("e"), text("go east"));
    let _ = d.insert(text("s"), text("go south"));
    let _ = d.insert(text("n"), text("go north"));
    let _ = d.insert(text("u"), text("go up"));
    let _ = d.insert(text("w"), text("go west"));
    let _ = d.insert(text("d"), text("go down"));
    let _ = d.insert(text("t"), text("take"));
    let _ = d.insert(text("q"), text("exit"));
    let _ = d.insert(text("?"), text("help"));
    let _ = d.insert(text("l"), text("look"));
    let _ = d.insert(text("i"), text("inventory"));
    d
}

} // verus!
