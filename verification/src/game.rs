use vstd::prelude::*;

verus! {

/// The text of each argument.
pub open spec fn arg_texts(args: Seq<String>) -> Seq<Seq<char>> {
    args.map_values(|a: String| a@)
}

/// The address that `--listen <addr>` options in `args[i..]` give, the last
/// one winning; `current` if there is none. A trailing `--listen` without
/// an address is ignored.
pub open spec fn listen_addr_from(args: Seq<Seq<char>>, i: int, current: Option<Seq<char>>) -> Option<
    Seq<char>,
>
    decreases args.len() - i,
{
    if i < 0 || i >= args.len() {
        current
    } else if args[i] == "--listen"@ {
        if i + 1 < args.len() {
            listen_addr_from(args, i + 2, Some(args[i + 1]))
        } else {
            current
        }
    } else {
        listen_addr_from(args, i + 1, current)
    }
}

/// Law: reading the game's command line skips any argument other than
/// `--listen` and reads on; `--listen` followed by a value makes that value
/// the address and reads on after it.
pub proof fn lemma_listen_args_read_on(args: Seq<Seq<char>>, i: int, current: Option<Seq<char>>)
    requires
        0 <= i < args.len(),
    ensures
        args[i] != "--listen"@ ==> listen_addr_from(args, i, current) == listen_addr_from(
            args,
            i + 1,
            current,
        ),
        args[i] == "--listen"@ && i + 1 < args.len() ==> listen_addr_from(args, i, current)
            == listen_addr_from(args, i + 2, Some(args[i + 1])),
{
}

/// How the game was started.
#[derive(Debug)]
pub struct LaunchOptions {
    /// Where to listen for remote controllers, if anywhere.
    pub listen_addr: Option<String>,
}

impl LaunchOptions {
    /// Reads the options from the command line `args` (the program name
    /// first): `--listen <addr>` makes the game listen at `addr`; anything
    /// else is ignored.
    pub fn from_args(args: &[String]) -> (r: LaunchOptions)
        ensures
            match r.listen_addr {
                Some(a) => listen_addr_from(arg_texts(args@), 1, None) == Some(a@),
                None => listen_addr_from(arg_texts(args@), 1, None) is None,
            },
    {
        let flag = String::from_str("--listen");
        let mut listen_addr: Option<String> = None;
        let mut i: usize = 1;
        while i < args.len()
            invariant
                1 <= i,
                flag@ == "--listen"@,
                listen_addr_from(arg_texts(args@), 1, None) == listen_addr_from(
                    arg_texts(args@),
                    i as int,
                    match listen_addr {
                        Some(a) => Some(a@),
                        None => None,
                    },
                ),
            decreases args@.len() - i,
        {
            assert(arg_texts(args@)[i as int] == args@[i as int]@);
            if args[i] == flag {
                if i + 1 < args.len() {
                    assert(arg_texts(args@)[i + 1] == args@[i + 1]@);
                    listen_addr = Some(args[i + 1].clone());
                    i += 2;
                } else {
                    i += 1;
                }
            } else {
                i += 1;
            }
        }
        LaunchOptions { listen_addr }
    }
}

/// The screen the game is on.
#[derive(Clone, Debug)]
pub enum GamePhase {
    StartMenu,
    PlayerSelect,
    Playing,
    GameOver { winner: Option<String> },
}

/// The index that `step` seats after seat `active`, going round a table of
/// `len` seats.
pub open spec fn seat_after(active: int, step: int, len: int) -> int {
    (active + step) % len
}

/// The first living seat among the `len` seats after `active`, going round
/// from `step` on (the last of them is `active` itself).
pub open spec fn next_alive_from(alive: Seq<bool>, active: int, step: int) -> Option<int>
    decreases alive.len() + 1 - step,
{
    if step < 1 || step > alive.len() {
        None
    } else if alive[seat_after(active, step, alive.len() as int)] {
        Some(seat_after(active, step, alive.len() as int))
    } else {
        next_alive_from(alive, active, step + 1)
    }
}

/// The living seat that plays after `active`.
pub open spec fn next_alive(alive: Seq<bool>, active: int) -> Option<int> {
    next_alive_from(alive, active, 1)
}

/// Some player is alive.
pub open spec fn anyone_alive(alive: Seq<bool>) -> bool {
    alive.contains(true)
}

/// Number of living players.
pub open spec fn alive_count(alive: Seq<bool>) -> nat
    decreases alive.len(),
{
    if alive.len() == 0 {
        0
    } else {
        alive_count(alive.drop_last()) + if alive.last() {
            1nat
        } else {
            0nat
        }
    }
}

/// Law: every living player counts, wherever it sits: the count of `a + b`
/// is that of `a` plus that of `b`, and one seat counts 1 if alive, else 0.
pub proof fn lemma_alive_count_law(a: Seq<bool>, b: Seq<bool>, x: bool)
    ensures
        alive_count(a + b) == alive_count(a) + alive_count(b),
        alive_count(seq![x]) == if x {
            1nat
        } else {
            0nat
        },
    decreases b.len(),
{
    if b.len() > 0 {
        assert((a + b).drop_last() =~= a + b.drop_last());
        lemma_alive_count_law(a, b.drop_last(), x);
    } else {
        assert(a + b =~= a);
    }
    assert(seq![x].drop_last() =~= Seq::<bool>::empty());
    assert(seq![x].last() == x);
    assert(alive_count(Seq::<bool>::empty()) == 0);
}

/// Law: two living players, anywhere in the table, count at least two, so
/// the game is not over.
pub proof fn lemma_two_alive_not_over(alive: Seq<bool>, i: int, j: int)
    requires
        0 <= i < j < alive.len(),
        alive[i],
        alive[j],
    ensures
        alive_count(alive) >= 2,
{
    let a = alive.subrange(0, i);
    let b = alive.subrange(i, i + 1);
    let c = alive.subrange(i + 1, j);
    let d = alive.subrange(j, j + 1);
    let e = alive.subrange(j + 1, alive.len() as int);
    assert(alive =~= a + b + c + d + e);
    assert(b =~= seq![true]);
    assert(d =~= seq![true]);
    lemma_alive_count_law(a + b + c + d, e, true);
    lemma_alive_count_law(a + b + c, d, true);
    lemma_alive_count_law(a + b, c, true);
    lemma_alive_count_law(a, b, true);
}

/// The first living player.
pub open spec fn first_alive(alive: Seq<bool>) -> Option<int> {
    if anyone_alive(alive) {
        Some(choose|i: int| 0 <= i < alive.len() && alive[i] && forall|j: int| 0 <= j < i ==> !alive[j])
    } else {
        None
    }
}

pub proof fn lemma_next_alive_from(alive: Seq<bool>, active: int, step: int)
    requires
        alive.len() > 0,
        1 <= step,
        active >= 0,
    ensures
        next_alive_from(alive, active, step) matches Some(i) ==> 0 <= i < alive.len() && alive[i]
            && exists|k: int|
            step <= k <= alive.len() && i == seat_after(active, k, alive.len() as int) && forall|
                m: int,
            |
                step <= m < k ==> !alive[#[trigger] seat_after(active, m, alive.len() as int)],
        next_alive_from(alive, active, step) is None ==> forall|m: int|
            step <= m <= alive.len() ==> !alive[#[trigger] seat_after(active, m, alive.len() as int)],
    decreases alive.len() + 1 - step,
{
    if step <= alive.len() && !alive[seat_after(active, step, alive.len() as int)] {
        lemma_next_alive_from(alive, active, step + 1);
    }
}

/// Law: going round the whole table from any seat reaches every seat, so
/// some seat is found exactly when someone is alive.
pub proof fn lemma_next_alive_found(alive: Seq<bool>, active: int)
    requires
        alive.len() > 0,
        active >= 0,
    ensures
        next_alive(alive, active) is Some <==> anyone_alive(alive),
{
    lemma_next_alive_from(alive, active, 1);
    let n = alive.len() as int;
    if anyone_alive(alive) {
        let i = choose|i: int| 0 <= i < alive.len() && alive[i];
        let r = active % n;
        // the seat i is reached after k steps, with 1 <= k <= n
        let k = if i > r {
            i - r
        } else {
            i - r + n
        };
        let q = active / n;
        vstd::arithmetic::div_mod::lemma_fundamental_div_mod(active, n);
        vstd::arithmetic::div_mod::lemma_mod_bound(active, n);
        vstd::arithmetic::div_mod::lemma_small_mod(i as nat, n as nat);
        if i > r {
            assert(active + k == n * q + i);
            vstd::arithmetic::div_mod::lemma_mod_multiples_vanish(q, i, n);
        } else {
            assert(n * (q + 1) == n * q + n) by (nonlinear_arith);
            assert(active + k == n * (q + 1) + i);
            vstd::arithmetic::div_mod::lemma_mod_multiples_vanish(q + 1, i, n);
        }
        assert(seat_after(active, k, n) == i);
        assert(!(next_alive(alive, active) is None)) by {
            if next_alive(alive, active) is None {
                assert(!alive[seat_after(active, k, n)]);
            }
        }
    }
}

/// The living player after `active`, going round the table.
/// Seat `step` places after `active`, for `1 <= step <= len`, reached
/// from `active % len` without wrapping past the table's end.
pub proof fn lemma_seat_after(active: int, step: int, len: int)
    requires
        len > 0,
        active >= 0,
        1 <= step <= len,
    ensures
        seat_after(active, step, len) == if step < len - active % len {
            active % len + step
        } else {
            active % len + step - len
        },
{
    let q = active / len;
    let r = active % len;
    vstd::arithmetic::div_mod::lemma_fundamental_div_mod(active, len);
    vstd::arithmetic::div_mod::lemma_mod_bound(active, len);
    if step < len - r {
        assert(active + step == len * q + (r + step));
        vstd::arithmetic::div_mod::lemma_mod_multiples_vanish(q, r + step, len);
        vstd::arithmetic::div_mod::lemma_small_mod((r + step) as nat, len as nat);
    } else {
        assert(len * (q + 1) == len * q + len) by (nonlinear_arith);
        assert(active + step == len * (q + 1) + (r + step - len));
        vstd::arithmetic::div_mod::lemma_mod_multiples_vanish(q + 1, r + step - len, len);
        vstd::arithmetic::div_mod::lemma_small_mod((r + step - len) as nat, len as nat);
    }
}

/// The living player after `active`, going round the table.
fn next_alive_index(active: usize, alive: &[bool]) -> (r: Option<usize>)
    requires
        alive@.len() > 0,
    ensures
        r matches Some(i) ==> next_alive(alive@, active as int) == Some(i as int),
        r is None ==> next_alive(alive@, active as int) is None,
{
    let len = alive.len();
    let start = active % len;
    let mut step: usize = 1;
    while step <= len
        invariant
            1 <= step <= len + 1,
            len == alive@.len(),
            len > 0,
            start == active % len,
            next_alive(alive@, active as int) == next_alive_from(alive@, active as int, step as int),
        decreases len + 1 - step,
    {
        proof {
            lemma_seat_after(active as int, step as int, len as int);
        }
        let idx = if step < len - start {
            start + step
        } else {
            step - (len - start)
        };
        if alive[idx] {
            return Some(idx);
        }
        if step == len {
            assert(next_alive_from(alive@, active as int, step + 1) is None);
            return None;
        }
        step += 1;
    }
    None
}

/// Makes sure the player at `active_index` is alive, moving on to the next
/// living player if not. Returns false, changing nothing, when no player is
/// alive.
pub fn ensure_active_player_alive(active_index: &mut usize, alive: &[bool]) -> (r: bool)
    requires
        anyone_alive(alive@) ==> *old(active_index) < alive@.len(),
    ensures
        r == anyone_alive(alive@),
        !r ==> *final(active_index) == *old(active_index),
        r && alive@[*old(active_index) as int] ==> *final(active_index) == *old(active_index),
        r && !alive@[*old(active_index) as int] ==> next_alive(alive@, *old(active_index) as int)
            == Some(*final(active_index) as int),
        r ==> *final(active_index) < alive@.len() && alive@[*final(active_index) as int],
{
    if all_dead(alive) {
        return false;
    }
    if alive[*active_index] {
        return true;
    }
    proof {
        lemma_next_alive_found(alive@, *active_index as int);
        lemma_next_alive_from(alive@, *active_index as int, 1);
    }
    match next_alive_index(*active_index, alive) {
        Some(idx) => {
            *active_index = idx;
            true
        },
        None => false,
    }
}

fn all_dead(alive: &[bool]) -> (r: bool)
    ensures
        r == !anyone_alive(alive@),
{
    let mut i: usize = 0;
    while i < alive.len()
        invariant
            i <= alive@.len(),
            forall|j: int| 0 <= j < i ==> !alive@[j],
        decreases alive@.len() - i,
    {
        if alive[i] {
            assert(alive@[i as int]);
            return false;
        }
        i += 1;
    }
    true
}

/// Passes the turn to the next living player after `active_index`, going
/// round the table (back to the same player if it is the only one alive).
/// Nothing changes when no player is alive.
pub fn advance_turn(active_index: &mut usize, alive: &[bool])
    ensures
        !anyone_alive(alive@) ==> *final(active_index) == *old(active_index),
        anyone_alive(alive@) ==> next_alive(alive@, *old(active_index) as int) == Some(
            *final(active_index) as int,
        ),
        anyone_alive(alive@) ==> *final(active_index) < alive@.len() && alive@[*final(active_index) as int],
{
    if all_dead(alive) {
        return;
    }
    proof {
        lemma_next_alive_found(alive@, *active_index as int);
        lemma_next_alive_from(alive@, *active_index as int, 1);
    }
    if let Some(idx) = next_alive_index(*active_index, alive) {
        *active_index = idx;
    }
}

/// Counts the living players.
fn count_alive(alive: &[bool]) -> (r: usize)
    ensures
        r == alive_count(alive@),
{
    let mut n: usize = 0;
    let mut i: usize = 0;
    while i < alive.len()
        invariant
            i <= alive@.len(),
            n == alive_count(alive@.take(i as int)),
            n <= i,
        decreases alive@.len() - i,
    {
        assert(alive@.take(i + 1).drop_last() =~= alive@.take(i as int));
        if alive[i] {
            n += 1;
        }
        i += 1;
    }
    assert(alive@.take(alive@.len() as int) =~= alive@);
    n
}

/// Whether a game of more than one player is over because at most one
/// player is left alive; if so, the winner is the living player, if any.
pub fn check_game_over(alive: &[bool]) -> (r: Option<Option<usize>>)
    ensures
        r is Some <==> alive@.len() > 1 && alive_count(alive@) <= 1,
        r matches Some(w) ==> match w {
            Some(i) => first_alive(alive@) == Some(i as int) && i < alive@.len() && alive@[i as int],
            None => first_alive(alive@) is None,
        },
{
    let living = count_alive(alive);
    if alive.len() > 1 && living <= 1 {
        let mut i: usize = 0;
        while i < alive.len()
            invariant
                i <= alive@.len(),
                alive@.len() > 1 && alive_count(alive@) <= 1,
                forall|j: int| 0 <= j < i ==> !alive@[j],
            decreases alive@.len() - i,
        {
            if alive[i] {
                proof {
                    assert(alive@[i as int]);
                    let c = choose|c: int|
                        0 <= c < alive@.len() && alive@[c] && forall|j: int|
                            0 <= j < c ==> !alive@[j];
                    assert(c == i);
                }
                return Some(Some(i));
            }
            i += 1;
        }
        return Some(None);
    }
    None
}

/// The volleys that a released charge fires: the shot pattern, or one
/// straight volley when the pattern is empty.
pub fn volleys_to_fire(pattern: Vec<(usize, Vec<i8>)>) -> (r: Vec<(usize, Vec<i8>)>)
    ensures
        pattern@.len() == 0 ==> r@.len() == 1 && r@[0].0 == 0 && r@[0].1@ == seq![0i8],
        pattern@.len() > 0 ==> r@ == pattern@,
{
    if pattern.len() == 0 {
        let mut offsets: Vec<i8> = Vec::new();
        offsets.push(0);
        let mut single: Vec<(usize, Vec<i8>)> = Vec::new();
        single.push((0, offsets));
        assert(single@[0].1@ =~= seq![0i8]);
        single
    } else {
        pattern
    }
}

/// Something that happens on a screen of the game.
#[derive(Clone, Debug)]
pub enum PhaseEvent {
    /// The player confirms: the start button or Enter on the start menu,
    /// Enter or a click on the game-over screen.
    Confirm,
    /// A player count was picked on the player-select screen.
    PlayersChosen { count: usize },
    /// A frame of play begins with these players alive.
    FrameStart { alive: Vec<bool> },
    /// A frame of play has resolved its explosions; these players are
    /// alive, and have these names.
    FrameEnd { alive: Vec<bool>, names: Vec<String> },
}

/// What the game must do on a change of screen.
#[derive(Clone, Copy, Debug, PartialEq, Eq, Structural)]
pub enum PhaseAction {
    /// Nothing.
    Nothing,
    /// Start a fresh game of `count` players: reload the map, create the
    /// players with the first living one active, a full turn timer, no
    /// shots, projectiles or pending turn end, and `count` input slots.
    NewGame { count: usize },
    /// Drop the pending shots, the projectiles and the pending turn end.
    ClearActions,
    /// Drop the players, projectiles, pending shots and pending turn end,
    /// and refill the turn timer.
    Reset,
}

/// The winner's name: that of the first living player, if any.
pub open spec fn winner_name(alive: Seq<bool>, names: Seq<String>) -> Option<String> {
    match first_alive(alive) {
        Some(i) => Some(names[i]),
        None => None,
    }
}

/// The screen after `event` on screen `phase`, and what must be done.
pub open spec fn next_phase(phase: GamePhase, event: PhaseEvent) -> (GamePhase, PhaseAction) {
    match event {
        PhaseEvent::Confirm => match phase {
            GamePhase::StartMenu => (GamePhase::PlayerSelect, PhaseAction::Nothing),
            GamePhase::GameOver { .. } => (GamePhase::StartMenu, PhaseAction::Reset),
            _ => (phase, PhaseAction::Nothing),
        },
        PhaseEvent::PlayersChosen { count } => match phase {
            GamePhase::PlayerSelect => (GamePhase::Playing, PhaseAction::NewGame { count }),
            _ => (phase, PhaseAction::Nothing),
        },
        PhaseEvent::FrameStart { alive } => match phase {
            GamePhase::Playing => if !anyone_alive(alive@) {
                (GamePhase::GameOver { winner: None }, PhaseAction::Nothing)
            } else {
                (phase, PhaseAction::Nothing)
            },
            _ => (phase, PhaseAction::Nothing),
        },
        PhaseEvent::FrameEnd { alive, names } => match phase {
            GamePhase::Playing => if alive@.len() > 1 && alive_count(alive@) <= 1 {
                (
                    GamePhase::GameOver { winner: winner_name(alive@, names@) },
                    PhaseAction::ClearActions,
                )
            } else {
                (phase, PhaseAction::Nothing)
            },
            _ => (phase, PhaseAction::Nothing),
        },
    }
}

/// Moves between the screens of the game: the start menu leads to player
/// selection, picking a player count starts a fresh game, a frame of play
/// with nobody alive ends the game without a winner, a frame that leaves at
/// most one of several players alive ends it with the survivor (if any) as
/// winner and drops all pending action, and confirming on the game-over
/// screen goes back to the start menu with everything reset.
pub fn phase_step(phase: GamePhase, event: PhaseEvent) -> (r: (GamePhase, PhaseAction))
    requires
        event matches PhaseEvent::FrameEnd { alive, names } ==> alive@.len() == names@.len(),
    ensures
        r == next_phase(phase, event),
{
    match event {
        PhaseEvent::Confirm => match phase {
            GamePhase::StartMenu => (GamePhase::PlayerSelect, PhaseAction::Nothing),
            GamePhase::GameOver { .. } => (GamePhase::StartMenu, PhaseAction::Reset),
            _ => (phase, PhaseAction::Nothing),
        },
        PhaseEvent::PlayersChosen { count } => match phase {
            GamePhase::PlayerSelect => (GamePhase::Playing, PhaseAction::NewGame { count }),
            _ => (phase, PhaseAction::Nothing),
        },
        PhaseEvent::FrameStart { alive } => match phase {
            GamePhase::Playing => {
                if all_dead(alive.as_slice()) {
                    (GamePhase::GameOver { winner: None }, PhaseAction::Nothing)
                } else {
                    (phase, PhaseAction::Nothing)
                }
            },
            _ => (phase, PhaseAction::Nothing),
        },
        PhaseEvent::FrameEnd { alive, names } => match phase {
            GamePhase::Playing => match check_game_over(alive.as_slice()) {
                Some(found) => {
                    let winner = match found {
                        Some(i) => Some(names[i].clone()),
                        None => None,
                    };
                    (GamePhase::GameOver { winner }, PhaseAction::ClearActions)
                },
                None => (phase, PhaseAction::Nothing),
            },
            _ => (phase, PhaseAction::Nothing),
        },
    }
}

/// Law: in play, a frame that leaves at most one of several players alive
/// ends the game, with the first living player (if any) as winner and every
/// pending shot, projectile and turn end dropped.
pub proof fn lemma_last_survivor_wins(alive: Vec<bool>, names: Vec<String>)
    requires
        alive@.len() > 1,
        alive_count(alive@) <= 1,
    ensures
        next_phase(GamePhase::Playing, PhaseEvent::FrameEnd { alive, names }) == (
            GamePhase::GameOver { winner: winner_name(alive@, names@) },
            PhaseAction::ClearActions,
        ),
{
}

/// What releasing the charge does in a frame.
#[derive(Clone, Copy, Debug, PartialEq, Eq, Structural)]
pub enum ChargeRelease {
    /// Nothing: the charge goes on (or there is none).
    Keep,
    /// The charge is dropped without effect.
    Cancel,
    /// The player flies off with the jetpack; the turn ends once that plays
    /// out, and the charge is dropped.
    LaunchSelf,
    /// The shot pattern is fired; the turn ends once that plays out, and the
    /// charge is dropped.
    Fire,
}

/// Decides what releasing the charge does: only an active player who is
/// charging and releases acts; with some charge built up the jetpack
/// launches the player and otherwise the shot is fired, and with none the
/// charge is just dropped.
pub fn release_charge_action(
    controls_enabled: bool,
    charging: bool,
    released: bool,
    has_charge: bool,
    jetpack: bool,
) -> (r: ChargeRelease)
    ensures
        r == if !(controls_enabled && charging && released) {
            ChargeRelease::Keep
        } else if !has_charge {
            ChargeRelease::Cancel
        } else if jetpack {
            ChargeRelease::LaunchSelf
        } else {
            ChargeRelease::Fire
        },
{
    if controls_enabled && charging && released {
        if has_charge {
            if jetpack {
                ChargeRelease::LaunchSelf
            } else {
                ChargeRelease::Fire
            }
        } else {
            ChargeRelease::Cancel
        }
    } else {
        ChargeRelease::Keep
    }
}

/// What happens at the end of a frame of play to the turn.
#[derive(Clone, Copy, Debug, PartialEq, Eq, Structural)]
pub struct TurnEnd {
    /// The turn passes to the next player.
    pub end_turn: bool,
    /// Shots still waiting to leave are dropped.
    pub clear_shots: bool,
    /// Projectiles in flight are dropped.
    pub clear_projectiles: bool,
    /// The turn still waits for the player's action to play out.
    pub pending_after_action: bool,
}

/// Whether the turn timer runs in this frame: only while the active player
/// is alive and has not yet acted.
pub fn turn_timer_runs(active_alive: bool, pending_after_action: bool) -> (r: bool)
    ensures
        r == (active_alive && !pending_after_action),
{
    active_alive && !pending_after_action
}

/// Decides the end of the turn: it ends when the active player is dead
/// (dropping all shots and projectiles), when the player's action has played
/// out (no shots waiting, no projectiles flying), or when the timer has run
/// out (dropping the shots still waiting).
pub fn decide_turn_end(
    active_alive: bool,
    pending_after_action: bool,
    shots_empty: bool,
    projectiles_empty: bool,
    timer_expired: bool,
) -> (r: TurnEnd)
    ensures
        r.end_turn == (!active_alive || (pending_after_action && shots_empty && projectiles_empty)
            || timer_expired),
        r.clear_shots == (!active_alive || timer_expired),
        r.clear_projectiles == !active_alive,
        r.pending_after_action == (pending_after_action && active_alive && !(shots_empty
            && projectiles_empty) && !timer_expired),
{
    let mut pending = pending_after_action;
    let mut shots_empty = shots_empty;
    let mut projectiles_empty = projectiles_empty;
    let mut turn_should_end = false;
    let mut clear_shots = false;
    let mut clear_projectiles = false;
    if !active_alive {
        turn_should_end = true;
        pending = false;
        clear_shots = true;
        shots_empty = true;
        clear_projectiles = true;
        projectiles_empty = true;
    }
    if pending && shots_empty && projectiles_empty {
        turn_should_end = true;
        pending = false;
    }
    if timer_expired {
        turn_should_end = true;
        pending = false;
        clear_shots = true;
    }
    TurnEnd {
        end_turn: turn_should_end,
        clear_shots,
        clear_projectiles,
        pending_after_action: pending,
    }
}

} // verus!
