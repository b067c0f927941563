//! The original forced-win puzzles, replayed over a plain Tak board that
//! implements the library's position interface: full games are played
//! out move by move, then the iterative-deepening enumerator must
//! certify exactly the documented winning move at the documented minimal
//! depth, and no shallower one.

use tinue_finder::alpha_beta::{alpha_beta, NodeValue};
use tinue_finder::{iddf_tinue_search, GameOutcome, GamePosition, Player};

#[derive(Clone, Copy, PartialEq, Eq, Debug)]
enum Color {
    White,
    Black,
}

impl Color {
    fn other(self) -> Color {
        match self {
            Color::White => Color::Black,
            Color::Black => Color::White,
        }
    }

    fn player(self) -> Player {
        match self {
            Color::White => Player::White,
            Color::Black => Player::Black,
        }
    }
}

#[derive(Clone, Copy, PartialEq, Eq, Debug)]
enum Role {
    Flat,
    Wall,
    Cap,
}

/// Up to six drop counts of a spread, zero-padded past `n`.
#[derive(Clone, Copy, PartialEq, Eq, Debug)]
struct Drops {
    d: [u8; 6],
    n: u8,
}

impl Drops {
    fn new() -> Drops {
        Drops { d: [0; 6], n: 0 }
    }

    fn push(&mut self, v: u8) {
        self.d[self.n as usize] = v;
        self.n += 1;
    }

    fn pop(&mut self) {
        self.n -= 1;
        self.d[self.n as usize] = 0;
    }

    fn as_slice(&self) -> &[u8] {
        &self.d[..self.n as usize]
    }

    fn sum(&self) -> u8 {
        self.as_slice().iter().sum()
    }
}

/// A Tak move: a placement, or a stack spread in one direction with the
/// given drop counts.
#[derive(Clone, Copy, PartialEq, Eq, Debug)]
enum TakMove {
    Place(Role, u8, u8),
    Spread { x: u8, y: u8, dx: i8, dy: i8, drops: Drops },
}

struct TakUndo {
    mv: TakMove,
    flattened: bool,
}

struct TakBoard {
    size: u8,
    stacks: Vec<Vec<(Color, Role)>>,
    to_move: Color,
    ply: u32,
    flats: [u8; 2],
    caps: [u8; 2],
}

fn reserve_flats(size: u8) -> u8 {
    match size {
        4 => 15,
        5 => 21,
        6 => 30,
        _ => panic!("unsupported board size"),
    }
}

fn reserve_caps(size: u8) -> u8 {
    match size {
        4 => 0,
        5 => 1,
        6 => 1,
        _ => panic!("unsupported board size"),
    }
}

fn win_outcome(c: Color) -> GameOutcome {
    match c {
        Color::White => GameOutcome::WhiteWin,
        Color::Black => GameOutcome::BlackWin,
    }
}

impl TakBoard {
    fn new(size: u8) -> TakBoard {
        TakBoard {
            size,
            stacks: vec![vec![]; (size as usize) * (size as usize)],
            to_move: Color::White,
            ply: 0,
            flats: [reserve_flats(size); 2],
            caps: [reserve_caps(size); 2],
        }
    }

    fn idx(&self, x: u8, y: u8) -> usize {
        (y as usize) * (self.size as usize) + (x as usize)
    }

    fn top(&self, x: u8, y: u8) -> Option<(Color, Role)> {
        self.stacks[self.idx(x, y)].last().copied()
    }

    fn color_index(c: Color) -> usize {
        match c {
            Color::White => 0,
            Color::Black => 1,
        }
    }

    /// Whether the bit set `from` can reach the far edge through `mask`,
    /// flooding orthogonally on an `s`-wide board laid out row-major.
    fn floods_across(s: u8, mask: u64, mut seen: u64, far_edge: u64) -> bool {
        let mut col0 = 0u64;
        let mut col_last = 0u64;
        for y in 0..s {
            col0 |= 1u64 << (y as u64 * s as u64);
            col_last |= 1u64 << (y as u64 * s as u64 + s as u64 - 1);
        }
        seen &= mask;
        loop {
            let grown = seen
                | ((seen << 1) & !col0)
                | ((seen >> 1) & !col_last)
                | (seen << s)
                | (seen >> s);
            let grown = grown & mask;
            if grown == seen {
                return false;
            }
            if grown & far_edge != 0 {
                return true;
            }
            seen = grown;
        }
    }

    fn has_road(&self, road_mask: u64) -> bool {
        let s = self.size;
        let mut west = 0u64;
        let mut east = 0u64;
        let mut south = 0u64;
        let mut north = 0u64;
        for y in 0..s {
            west |= 1u64 << (y as u64 * s as u64);
            east |= 1u64 << (y as u64 * s as u64 + s as u64 - 1);
        }
        for x in 0..s {
            south |= 1u64 << (x as u64);
            north |= 1u64 << ((s as u64 - 1) * s as u64 + x as u64);
        }
        Self::floods_across(s, road_mask, west, east)
            || Self::floods_across(s, road_mask, south, north)
    }

    fn result(&self) -> Option<GameOutcome> {
        let mut white_road = 0u64;
        let mut black_road = 0u64;
        let mut occupied: u32 = 0;
        let mut white_flats: u32 = 0;
        let mut black_flats: u32 = 0;
        for (i, st) in self.stacks.iter().enumerate() {
            if let Some((c, r)) = st.last() {
                occupied += 1;
                match (c, r) {
                    (Color::White, Role::Flat) => {
                        white_road |= 1 << i;
                        white_flats += 1;
                    }
                    (Color::White, Role::Cap) => white_road |= 1 << i,
                    (Color::Black, Role::Flat) => {
                        black_road |= 1 << i;
                        black_flats += 1;
                    }
                    (Color::Black, Role::Cap) => black_road |= 1 << i,
                    _ => {}
                }
            }
        }
        // roads: the player who just moved wins theirs first
        let last_mover = self.to_move.other();
        let (mover_road, waiter_road) = match last_mover {
            Color::White => (white_road, black_road),
            Color::Black => (black_road, white_road),
        };
        if self.has_road(mover_road) {
            return Some(win_outcome(last_mover));
        }
        if self.has_road(waiter_road) {
            return Some(win_outcome(self.to_move));
        }
        // flat win: the board is full, or a player has placed every piece
        let board_full = occupied as usize == self.stacks.len();
        let out_of_pieces = (0..2).any(|i| self.flats[i] == 0 && self.caps[i] == 0);
        if board_full || out_of_pieces {
            return Some(if white_flats > black_flats {
                GameOutcome::WhiteWin
            } else if black_flats > white_flats {
                GameOutcome::BlackWin
            } else {
                GameOutcome::Draw
            });
        }
        None
    }

    fn gen_spread_drops(
        &self,
        x: u8,
        y: u8,
        dx: i8,
        dy: i8,
        nx: i8,
        ny: i8,
        remaining: u8,
        top_is_cap: bool,
        drops: &mut Drops,
        out: &mut Vec<TakMove>,
    ) {
        if nx < 0 || ny < 0 || nx as u8 >= self.size || ny as u8 >= self.size {
            return;
        }
        match self.top(nx as u8, ny as u8) {
            Some((_, Role::Cap)) => {}
            Some((_, Role::Wall)) => {
                // only the capstone alone may land on a wall, flattening it
                if top_is_cap && remaining == 1 {
                    let mut d = *drops;
                    d.push(1);
                    out.push(TakMove::Spread { x, y, dx, dy, drops: d });
                }
            }
            _ => {
                for take in 1..=remaining {
                    drops.push(take);
                    if take == remaining {
                        out.push(TakMove::Spread { x, y, dx, dy, drops: *drops });
                    } else {
                        self.gen_spread_drops(
                            x,
                            y,
                            dx,
                            dy,
                            nx + dx,
                            ny + dy,
                            remaining - take,
                            top_is_cap,
                            drops,
                            out,
                        );
                    }
                    drops.pop();
                }
            }
        }
    }

    fn legal_moves(&self) -> Vec<TakMove> {
        let mut out = vec![];
        let s = self.size;
        let me = self.to_move;
        let mi = Self::color_index(me);
        if self.ply < 2 {
            // the first ply of each player places an opponent's flat
            for y in 0..s {
                for x in 0..s {
                    if self.top(x, y).is_none() {
                        out.push(TakMove::Place(Role::Flat, x, y));
                    }
                }
            }
            return out;
        }
        for y in 0..s {
            for x in 0..s {
                if self.top(x, y).is_none() {
                    if self.flats[mi] > 0 {
                        out.push(TakMove::Place(Role::Wall, x, y));
                        out.push(TakMove::Place(Role::Flat, x, y));
                    }
                    if self.caps[mi] > 0 {
                        out.push(TakMove::Place(Role::Cap, x, y));
                    }
                }
            }
        }
        for y in 0..s {
            for x in 0..s {
                if let Some((tc, tr)) = self.top(x, y) {
                    if tc != me {
                        continue;
                    }
                    let height = self.stacks[self.idx(x, y)].len();
                    let max_pick = std::cmp::min(s as usize, height) as u8;
                    for pick in 1..=max_pick {
                        for (dx, dy) in [(1i8, 0i8), (-1, 0), (0, 1), (0, -1)] {
                            let mut drops = Drops::new();
                            self.gen_spread_drops(
                                x,
                                y,
                                dx,
                                dy,
                                x as i8 + dx,
                                y as i8 + dy,
                                pick,
                                tr == Role::Cap,
                                &mut drops,
                                &mut out,
                            );
                        }
                    }
                }
            }
        }
        out
    }

    fn apply(&mut self, mv: &TakMove) -> TakUndo {
        let mut flattened = false;
        match mv {
            TakMove::Place(role, x, y) => {
                let color = if self.ply < 2 { self.to_move.other() } else { self.to_move };
                let ci = Self::color_index(color);
                match role {
                    Role::Cap => self.caps[ci] -= 1,
                    _ => self.flats[ci] -= 1,
                }
                let at = self.idx(*x, *y);
                self.stacks[at].push((color, *role));
            }
            TakMove::Spread { x, y, dx, dy, drops } => {
                let count = drops.sum();
                let from = self.idx(*x, *y);
                let h = self.stacks[from].len();
                let picked = self.stacks[from].split_off(h - count as usize);
                let mut offset = 0usize;
                let mut cx = *x as i8;
                let mut cy = *y as i8;
                let ds = drops.as_slice();
                for (k, d) in ds.iter().enumerate() {
                    cx += dx;
                    cy += dy;
                    let at = self.idx(cx as u8, cy as u8);
                    if k == ds.len() - 1 {
                        if let Some(top) = self.stacks[at].last_mut() {
                            if top.1 == Role::Wall {
                                top.1 = Role::Flat;
                                flattened = true;
                            }
                        }
                    }
                    for p in &picked[offset..offset + *d as usize] {
                        self.stacks[at].push(*p);
                    }
                    offset += *d as usize;
                }
            }
        }
        self.to_move = self.to_move.other();
        self.ply += 1;
        TakUndo { mv: *mv, flattened }
    }

    fn unapply(&mut self, undo: TakUndo) {
        self.to_move = self.to_move.other();
        self.ply -= 1;
        match undo.mv {
            TakMove::Place(_, x, y) => {
                let at = self.idx(x, y);
                let (color, role) = self.stacks[at].pop().unwrap();
                let ci = Self::color_index(color);
                match role {
                    Role::Cap => self.caps[ci] += 1,
                    _ => self.flats[ci] += 1,
                }
            }
            TakMove::Spread { x, y, dx, dy, drops } => {
                let mut picked = vec![];
                let mut cx = x as i8;
                let mut cy = y as i8;
                let ds = drops.as_slice();
                for (k, d) in ds.iter().enumerate() {
                    cx += dx;
                    cy += dy;
                    let at = self.idx(cx as u8, cy as u8);
                    let h = self.stacks[at].len();
                    let mut seg = self.stacks[at].split_off(h - *d as usize);
                    if k == ds.len() - 1 && undo.flattened {
                        if let Some(top) = self.stacks[at].last_mut() {
                            top.1 = Role::Wall;
                        }
                    }
                    picked.append(&mut seg);
                }
                let from = self.idx(x, y);
                self.stacks[from].append(&mut picked);
            }
        }
    }

    fn square_text(x: u8, y: u8) -> String {
        format!("{}{}", (b'a' + x) as char, y + 1)
    }

    fn text_of(&self, mv: &TakMove) -> String {
        match mv {
            TakMove::Place(Role::Flat, x, y) => Self::square_text(*x, *y),
            TakMove::Place(Role::Wall, x, y) => format!("S{}", Self::square_text(*x, *y)),
            TakMove::Place(Role::Cap, x, y) => format!("C{}", Self::square_text(*x, *y)),
            TakMove::Spread { x, y, dx, dy, drops } => {
                let count = drops.sum();
                let dir = match (dx, dy) {
                    (1, 0) => '>',
                    (-1, 0) => '<',
                    (0, 1) => '+',
                    _ => '-',
                };
                let mut text = String::new();
                if count > 1 {
                    text.push((b'0' + count) as char);
                }
                text.push_str(&Self::square_text(*x, *y));
                text.push(dir);
                if drops.n > 1 {
                    for d in drops.as_slice() {
                        text.push((b'0' + d) as char);
                    }
                }
                text
            }
        }
    }

    fn parse(&self, text: &str) -> Option<TakMove> {
        let t = text.trim_end_matches('*');
        let bytes = t.as_bytes();
        if bytes.is_empty() {
            return None;
        }
        if bytes[0] == b'S' || bytes[0] == b'C' {
            let role = if bytes[0] == b'S' { Role::Wall } else { Role::Cap };
            let (x, y) = parse_square(&t[1..])?;
            return Some(TakMove::Place(role, x, y));
        }
        let (count, rest) = if bytes[0].is_ascii_digit() {
            (bytes[0] - b'0', &t[1..])
        } else {
            (1, t)
        };
        let rb = rest.as_bytes();
        if rb.len() < 2 {
            return None;
        }
        let (x, y) = parse_square(&rest[..2])?;
        if rb.len() == 2 {
            if bytes[0].is_ascii_digit() {
                return None;
            }
            return Some(TakMove::Place(Role::Flat, x, y));
        }
        let (dx, dy): (i8, i8) = match rb[2] {
            b'>' => (1, 0),
            b'<' => (-1, 0),
            b'+' => (0, 1),
            b'-' => (0, -1),
            _ => return None,
        };
        let mut drops = Drops::new();
        if rb.len() > 3 {
            for b in rest[3..].bytes() {
                if !b.is_ascii_digit() || b == b'0' || drops.n >= 6 {
                    return None;
                }
                drops.push(b - b'0');
            }
        } else {
            drops.push(count);
        }
        if drops.sum() != count {
            return None;
        }
        Some(TakMove::Spread { x, y, dx, dy, drops })
    }
}

fn parse_square(t: &str) -> Option<(u8, u8)> {
    let b = t.as_bytes();
    if b.len() != 2 || !(b'a'..=b'h').contains(&b[0]) || !(b'1'..=b'8').contains(&b[1]) {
        return None;
    }
    Some((b[0] - b'a', b[1] - b'1'))
}

impl GamePosition for TakBoard {
    type Move = TakMove;
    type Undo = TakUndo;

    fn side_to_move(&self) -> Player {
        self.to_move.player()
    }

    fn game_result(&self) -> Option<GameOutcome> {
        self.result()
    }

    fn generate_moves(&self) -> Vec<TakMove> {
        self.legal_moves()
    }

    fn generate_scored_moves(&self) -> Vec<(TakMove, u64)> {
        let moves = self.legal_moves();
        let n = moves.len() as u64;
        // keep the generator's order: placements first, then spreads
        moves.into_iter().enumerate().map(|(i, m)| (m, n - i as u64)).collect()
    }

    fn do_move(&mut self, mv: &TakMove) -> TakUndo {
        self.apply(mv)
    }

    fn undo_move(&mut self, undo: TakUndo) {
        self.unapply(undo)
    }

    fn move_text(&self, mv: &TakMove) -> String {
        self.text_of(mv)
    }

    fn move_is_dominated(&self, mv: &TakMove, remaining_depth: u32) -> bool {
        // near the horizon an attacking wall placement can no longer
        // help: walls never form roads (this forgoes rare board-fill wins)
        remaining_depth <= 2 && matches!(mv, TakMove::Place(Role::Wall, _, _))
    }
}

/// Replays a full game, then checks that the forced win certifies at
/// exactly `depth` with the single documented move — and at no
/// shallower depth.
fn run_tinue_test(size: u8, depth: u32, move_strings: &[&str], answer_move_string: &str) {
    let mut position = TakBoard::new(size);
    for move_string in move_strings {
        let mv = position.parse(move_string).unwrap();
        let legal_moves = position.generate_moves();
        assert!(legal_moves.contains(&mv), "illegal move {}", move_string);
        position.do_move(&mv);
    }
    assert!(position.result().is_none());

    let answer_move = position.parse(answer_move_string).unwrap();
    let legal_moves = position.generate_moves();
    assert!(legal_moves.contains(&answer_move));
    let answer_text = position.move_text(&answer_move);

    let side_to_move = position.side_to_move();

    // no forced win certifies below the documented depth
    let shallow_depth_result = iddf_tinue_search(&mut position, depth - 2, side_to_move, false).0;
    assert!(shallow_depth_result.is_none());

    // the forced win is found, and its winning move is unique
    let result = iddf_tinue_search(&mut position, depth, side_to_move, false).0.unwrap();
    assert_eq!(result.depth, depth);
    assert_eq!(result.result.len(), 1);
    assert_eq!(result.result[0].mv, answer_text);

    let (negamax_result, _) = alpha_beta(
        &mut position,
        depth,
        NodeValue::WinInPly(depth),
        NodeValue::WinInPly(0),
    );
    assert_eq!(negamax_result, NodeValue::WinInPly(depth));
}

#[test]
fn tinue_tests_5s_tinue_test() {
    let move_strings = [
        "a1", "a5", "b5", "Cc3", "c5", "d5", "Cd4", "c4", "e5", "1c4+1", "1d4+1", "c4", "1d5<1",
        "1d5>1", "d5", "e4", "2c5>11", "1d5<1", "2e5<11", "2d5>2",
    ];

    run_tinue_test(5, 3, &move_strings, "2c5>11");
}

#[test]
fn tinue_tests_5s_tinue_test2() {
    let move_strings = [
        "a5", "e4", "Cc3", "c4", "b3", "Cd3", "b4", "b5", "d4", "d5", "a4", "c4>", "e4<", "d3+",
        "e3", "d3", "d2", "4d4<22", "a3", "3b4-", "c5", "2c4+", "a4+", "b2", "b4", "c4", "b1",
        "c2", "c1", "d1", "d4", "a2", "a4", "e2", "d2<", "c4<", "a4>", "d2", "c4", "b2>", "c1+",
        "b5-", "4c2>22", "4b4>22", "c3+", "d3-", "3c4>", "3d2>", "4d4-22", "5e2+122", "d4>",
        "2e3+", "d4>", "2e5-", "d4", "3e4<", "e3", "c2", "a4", "e1", "e3+", "4d4>", "a1", "a2+",
        "a2",
    ];

    run_tinue_test(5, 3, &move_strings, "5e4+");
}

#[test]
fn tinue_tests_5s_tinue_test3() {
    let move_strings = [
        "b4", "a5", "e5", "b5", "b3", "Cc3", "Cc5", "d5", "d4", "d3", "b3+", "a4", "2b4+", "a4+",
        "a4", "b4", "d4+", "b4<", "b4", "a3", "b3", "a2", "3b5<", "2a4+", "Sa4", "b2", "e3", "e2",
        "a4+", "d2", "5a5-122", "3a5-21", "3a2+", "c2", "5a3-", "c3<", "5a2>113", "2a4-", "a5",
        "Sb5", "d4", "c3", "e3<", "c3>", "4d2<", "e3", "Sc3", "3d3+12", "c5>", "e4", "5d5>", "c4",
        "5e5-212", "2d4>", "e3+", "e1",
    ];

    run_tinue_test(5, 3, &move_strings, "2e2+11");
}

#[test]
fn tinue_test4() {
    let move_strings = [
        "e1", "e5", "Cc3", "c1", "d1", "d2", "a3", "b1", "b3", "d2-", "a1", "a2", "a1>", "Cb2",
        "Sc2", "a1", "2b1>", "b2+", "b5", "b1", "c4", "d2", "c5",
    ];
    run_tinue_test(5, 5, &move_strings, "2b3-11");
}

#[test]
fn tinue_test5() {
    let move_strings = [
        "c4", "a5", "e1", "c3", "d1", "c2", "c1", "b1", "Cb2", "c5", "b2-", "a1", "a2", "c2-",
        "c2", "2c1>", "d2", "Cb2", "c1", "b2>", "d2-", "2c2-", "c2", "3c1>", "b2", "d3", "Sd2",
        "c1", "a3", "a1+", "a3-",
    ];
    run_tinue_test(5, 5, &move_strings, "d1<");
}

#[test]
fn tinue_tests_6s_tinue_test() {
    let move_strings = [
        "a6", "f1", "d3", "b6", "c3", "c6", "b3", "d6", "Se6", "d5", "e5", "d4", "Ce4", "e3", "f3",
        "Cc4", "f6", "f2", "f5", "1c4-1", "e2", "d2", "e1", "1e3-1", "1e1+1", "1d2>1", "Sd2", "c4",
        "1d2>1", "c1", "Sc2", "f4", "4e2>4", "Se3", "e1", "d2", "1e4>1", "1e3-1",
    ];

    run_tinue_test(6, 5, &move_strings, "2f4-11");
}

#[test]
fn tinue_tests_6s_tinue_test2() {
    let move_strings = [
        "b6", "a6", "a5", "b3", "b5", "c3", "c5", "d3", "e5", "d5", "f5", "d4", "d6", "d5>", "e6",
        "Cd5", "c6", "b6>", "Cc4", "d2", "c5+", "d1", "c4>", "a3", "f6", "d5+", "d5", "Sc5", "c2",
        "e1", "f1", "f2", "2d4-", "e2", "f3", "b1", "f4", "c1", "f3-", "2e5>", "f4+", "Sf4", "b2",
        "e3", "f3", "f4+", "d4", "5f5-122", "3d3>12", "3f2-", "3f3-", "e3>", "f4-", "e3>", "e3",
        "5f3<32", "Sf3", "2d6>", "f5", "a1", "f4",
    ];

    run_tinue_test(6, 3, &move_strings, "3e6-111");
}

#[test]
fn tinue_tests_6s_tinue_test3() {
    let move_strings = [
        "a6", "f1", "d3", "b6", "d4", "c6", "e6", "d6", "Cd5", "d2", "e5", "e2", "c3", "Cc2", "f2",
        "f3", "e3", "c2+", "e1", "f3<", "e4", "f3", "d3>", "e2+", "e2", "d3", "d5>", "4e3-22",
        "Se3", "c4", "e3-", "c5", "d4<", "Se3", "3e2-", "b3", "2e5-11", "d6>", "2e4+11", "Se4",
    ];
    run_tinue_test(6, 3, &move_strings, "2e3-11");
}
