use vstd::prelude::*;

verus! {

/// One of the four directions in which the player can move.
#[derive(Copy, Clone, Debug, PartialEq, Eq, Structural)]
pub enum Direction {
    /// Towards the previous row.
    Up,
    /// Towards the next row.
    Down,
    /// Towards the previous column.
    Left,
    /// Towards the next column.
    Right,
}

/// A cell of the grid, by row and column.
///
/// The grid is unbounded: any pair of `i32` is a position, and a neighbor
/// past either end of the `i32` range wraps around to the other end.
#[derive(Copy, Clone, Debug, PartialEq, Eq, Structural, PartialOrd, Ord, Hash)]
pub struct Position {
    pub row: i32,
    pub col: i32,
}

impl Position {
    /// The cell next to this one in direction `dir`.
    pub open spec fn next(self, dir: Direction) -> Position {
        match dir {
            Direction::Up => Position { row: self.row.wrapping_sub(1), col: self.col },
            Direction::Down => Position { row: self.row.wrapping_add(1), col: self.col },
            Direction::Left => Position { row: self.row, col: self.col.wrapping_sub(1) },
            Direction::Right => Position { row: self.row, col: self.col.wrapping_add(1) },
        }
    }

    /// Creates the position at row `row` and column `col`.
    pub fn new(row: i32, col: i32) -> (r: Position)
        ensures
            r.row == row,
            r.col == col,
    {
        Position { row, col }
    }

    /// Returns the position next to this one in the given direction.
    pub fn neighbor(&self, dir: Direction) -> (r: Position)
        ensures
            r == self.next(dir),
    {
        match dir {
            Direction::Up => Position { row: self.row.wrapping_sub(1), col: self.col },
            Direction::Down => Position { row: self.row.wrapping_add(1), col: self.col },
            Direction::Left => Position { row: self.row, col: self.col.wrapping_sub(1) },
            Direction::Right => Position { row: self.row, col: self.col.wrapping_add(1) },
        }
    }

    /// Returns the row number.
    pub fn row(&self) -> (r: i32)
        ensures
            r == self.row,
    {
        self.row
    }

    /// Returns the column number.
    pub fn column(&self) -> (r: i32)
        ensures
            r == self.col,
    {
        self.col
    }

    /// A neighbor is never the cell itself.
    pub proof fn lemma_next_differs(self, dir: Direction)
        ensures
            self.next(dir) != self,
    {
    }
}

/// The mathematical state of a level.
pub struct LevelView {
    pub title: Seq<char>,
    pub player: Position,
    pub steps: int,
    pub walls: Set<Position>,
    pub boxes: Set<Position>,
    pub squares: Set<Position>,
    pub extents: (int, int),
}

impl LevelView {
    /// A cell is free when it holds neither a wall nor a box.
    pub open spec fn is_free(self, pos: Position) -> bool {
        !self.walls.contains(pos) && !self.boxes.contains(pos)
    }

    /// The level is completed when every target square holds a box.
    pub open spec fn is_completed(self) -> bool {
        self.squares.subset_of(self.boxes)
    }

    /// The state after the player tries to move one cell in direction `dir`.
    ///
    /// The player walks into a free cell; into a box only when the cell
    /// beyond the box is free, and the box is then pushed there. Any other
    /// move is rejected and changes nothing.
    pub open spec fn stepped(self, dir: Direction) -> LevelView {
        let target = self.player.next(dir);
        let beyond = target.next(dir);
        if self.is_free(target) {
            LevelView { player: target, steps: self.steps + 1, ..self }
        } else if self.boxes.contains(target) && self.is_free(beyond) {
            LevelView {
                player: target,
                steps: self.steps + 1,
                boxes: self.boxes.remove(target).insert(beyond),
                ..self
            }
        } else {
            self
        }
    }

    /// The state after the moves `dirs`, in order.
    pub open spec fn after(self, dirs: Seq<Direction>) -> LevelView
        decreases dirs.len(),
    {
        if dirs.len() == 0 {
            self
        } else {
            self.stepped(dirs[0]).after(dirs.drop_first())
        }
    }
}

/// Stepping never moves the player into a wall, provided the player does not
/// start on one and no box shares a cell with a wall.
pub proof fn lemma_player_stays_off_walls(v: LevelView, dirs: Seq<Direction>)
    requires
        !v.walls.contains(v.player),
        v.walls.disjoint(v.boxes),
    ensures
        !v.after(dirs).walls.contains(v.after(dirs).player),
        v.after(dirs).walls.disjoint(v.after(dirs).boxes),
    decreases dirs.len(),
{
    if dirs.len() > 0 {
        lemma_walls_and_boxes_stay_apart(v, dirs.take(1));
        lemma_player_stays_off_walls(v.stepped(dirs[0]), dirs.drop_first());
    }
}

/// No sequence of moves ever puts a box on a wall.
pub proof fn lemma_walls_and_boxes_stay_apart(v: LevelView, dirs: Seq<Direction>)
    requires
        v.walls.disjoint(v.boxes),
    ensures
        v.after(dirs).walls.disjoint(v.after(dirs).boxes),
    decreases dirs.len(),
{
    if dirs.len() > 0 {
        let w = v.stepped(dirs[0]);
        assert(w.walls.disjoint(w.boxes));
        lemma_walls_and_boxes_stay_apart(w, dirs.drop_first());
    }
}

/// Pushing a box against a wall or another box changes nothing: the box
/// and the player stay where they are and no step is counted.
pub proof fn lemma_blocked_push_changes_nothing(v: LevelView, dir: Direction)
    requires
        v.boxes.contains(v.player.next(dir)),
        !v.is_free(v.player.next(dir).next(dir)),
    ensures
        v.stepped(dir) == v,
{
}

/// Moving into a free cell always moves the player there and counts
/// exactly one step.
pub proof fn lemma_free_move_counts_one_step(v: LevelView, dir: Direction)
    requires
        v.is_free(v.player.next(dir)),
    ensures
        v.stepped(dir).player == v.player.next(dir),
        v.stepped(dir).player != v.player,
        v.stepped(dir).steps == v.steps + 1,
{
    v.player.lemma_next_differs(dir);
}

/// Pushing a box from outside the target squares onto the last uncovered
/// one completes the level.
pub proof fn lemma_covering_last_target_completes(v: LevelView, dir: Direction)
    requires
        v.boxes.contains(v.player.next(dir)),
        !v.squares.contains(v.player.next(dir)),
        v.is_free(v.player.next(dir).next(dir)),
        v.squares.difference(v.boxes) == set![v.player.next(dir).next(dir)],
    ensures
        !v.is_completed(),
        v.stepped(dir).is_completed(),
{
    let beyond = v.player.next(dir).next(dir);
    v.player.next(dir).lemma_next_differs(dir);
    assert(v.squares.difference(v.boxes).contains(beyond));
    assert forall|p: Position| v.stepped(dir).squares.contains(p) implies v.stepped(
        dir,
    ).boxes.contains(p) by {
        if p != beyond && !v.boxes.contains(p) {
            assert(v.squares.difference(v.boxes).contains(p));
        }
    }
}

/// Pushing a box off a target square leaves the level uncompleted.
pub proof fn lemma_uncovering_target_uncompletes(v: LevelView, dir: Direction)
    requires
        v.boxes.contains(v.player.next(dir)),
        v.is_free(v.player.next(dir).next(dir)),
        v.squares.contains(v.player.next(dir)),
    ensures
        !v.stepped(dir).is_completed(),
{
    let target = v.player.next(dir);
    target.lemma_next_differs(dir);
    assert(!v.stepped(dir).boxes.contains(target));
}

/// The state of a level: its fixed walls and target squares, and the
/// positions of the player and of the boxes, which change as the player moves.
#[derive(Clone)]
pub struct Level {
    /// The level's title.
    title: String,
    /// The player's position.
    player: Position,
    /// The number of moves made so far.
    steps: i32,
    /// The positions of the walls.
    walls: Vec<Position>,
    /// The positions of the boxes, each listed once.
    boxes: Vec<Position>,
    /// The positions of the target squares.
    squares: Vec<Position>,
    /// The number of columns of the level.
    width: i32,
    /// The number of rows of the level.
    height: i32,
}

impl View for Level {
    type V = LevelView;

    closed spec fn view(&self) -> LevelView {
        LevelView {
            title: self.title@,
            player: self.player,
            steps: self.steps as int,
            walls: self.walls@.to_set(),
            boxes: self.boxes@.to_set(),
            squares: self.squares@.to_set(),
            extents: (self.width as int, self.height as int),
        }
    }
}

/// Returns true if `pos` is one of the elements of `v`.
fn contains_position(v: &Vec<Position>, pos: &Position) -> (r: bool)
    ensures
        r == v@.contains(*pos),
{
    let mut i: usize = 0;
    while i < v.len()
        invariant
            i <= v.len(),
            forall|j: int| 0 <= j < i ==> v@[j] != *pos,
        decreases v.len() - i,
    {
        if v[i] == *pos {
            return true;
        }
        i = i + 1;
    }
    false
}

/// Adds `pos` to the set of positions held by `v`, keeping each one listed once.
fn insert_position(v: &mut Vec<Position>, pos: Position)
    requires
        old(v)@.no_duplicates(),
    ensures
        final(v)@.no_duplicates(),
        final(v)@.to_set() == old(v)@.to_set().insert(pos),
        final(v)@ == old(v)@ || final(v)@ == old(v)@.push(pos),
{
    let ghost before = v@;
    if !contains_position(v, &pos) {
        v.push(pos);
        assert forall|x: Position| #[trigger] v@.contains(x) <==> (before.contains(x) || x == pos) by {
            if before.contains(x) {
                let k = choose|k: int| 0 <= k < before.len() && before[k] == x;
                assert(v@[k] == x);
            }
            if v@.contains(x) {
                let k = choose|k: int| 0 <= k < v@.len() && v@[k] == x;
                if k < before.len() {
                    assert(before[k] == x);
                }
            }
            if x == pos {
                assert(v@[before.len() as int] == x);
            }
        }
        assert(v@.to_set() =~= before.to_set().insert(pos));
    } else {
        assert(before.to_set() =~= before.to_set().insert(pos));
    }
}

impl Level {
    /// The internal invariant: each box is listed once and the step counter
    /// is not negative.
    pub closed spec fn wf(&self) -> bool {
        self.boxes@.no_duplicates() && self.steps >= 0
    }

    /// Moves the player in the given direction if possible.
    ///
    /// The move is rejected, and nothing changes, when the cell ahead is a
    /// wall, or a box whose cell beyond is a wall or another box.
    pub fn step(&mut self, dir: Direction)
        requires
            old(self).wf(),
            old(self)@.steps < i32::MAX,
        ensures
            final(self).wf(),
            final(self)@ == old(self)@.stepped(dir),
    {
        let next_to_player = self.player.neighbor(dir);
        proof {
            self.player.lemma_next_differs(dir);
        }
        if self.is_free(&next_to_player) {
            self.move_player(next_to_player);
        } else if self.is_box(&next_to_player) {
            let next_to_box = next_to_player.neighbor(dir);
            if self.is_free(&next_to_box) {
                self.move_box(&next_to_player, next_to_box);
                self.move_player(next_to_player);
            }
        }
    }

    /// Returns the current number of steps.
    pub fn get_steps(&self) -> (r: i32)
        ensures
            r == self@.steps,
    {
        self.steps
    }

    /// Returns true if every target square holds a box.
    pub fn is_completed(&self) -> (r: bool)
        ensures
            r == self@.is_completed(),
    {
        let mut i: usize = 0;
        while i < self.squares.len()
            invariant
                i <= self.squares.len(),
                forall|j: int| 0 <= j < i ==> self.boxes@.contains(#[trigger] self.squares@[j]),
            decreases self.squares.len() - i,
        {
            if !contains_position(&self.boxes, &self.squares[i]) {
                assert(self@.squares.contains(self.squares@[i as int]));
                return false;
            }
            i = i + 1;
        }
        assert forall|p: Position| self@.squares.contains(p) implies self@.boxes.contains(p) by {
            let k = choose|k: int| 0 <= k < self.squares@.len() && self.squares@[k] == p;
        }
        true
    }

    /// Returns true if the given position holds neither a wall nor a box.
    pub fn is_free(&self, pos: &Position) -> (r: bool)
        ensures
            r == self@.is_free(*pos),
    {
        !contains_position(&self.walls, pos) && !contains_position(&self.boxes, pos)
    }

    /// Returns true if there is a box at the given position.
    pub fn is_box(&self, pos: &Position) -> (r: bool)
        ensures
            r == self@.boxes.contains(*pos),
    {
        contains_position(&self.boxes, pos)
    }

    /// Returns true if the player is at the given position.
    pub fn is_player(&self, pos: &Position) -> (r: bool)
        ensures
            r == (self@.player == *pos),
    {
        self.player == *pos
    }

    /// Returns true if there is a target square at the given position.
    pub fn is_square(&self, pos: &Position) -> (r: bool)
        ensures
            r == self@.squares.contains(*pos),
    {
        contains_position(&self.squares, pos)
    }

    /// Returns true if there is a wall at the given position.
    pub fn is_wall(&self, pos: &Position) -> (r: bool)
        ensures
            r == self@.walls.contains(*pos),
    {
        contains_position(&self.walls, pos)
    }

    /// Returns the number of columns and rows of this level.
    pub fn extents(&self) -> (r: (i32, i32))
        ensures
            r.0 == self@.extents.0,
            r.1 == self@.extents.1,
    {
        (self.width, self.height)
    }

    /// Returns the title.
    pub fn title(&self) -> (r: &str)
        ensures
            r@ == self@.title,
    {
        self.title.as_str()
    }

    /// Changes the title.
    pub fn set_title(&mut self, title: String)
        requires
            old(self).wf(),
        ensures
            final(self).wf(),
            final(self)@ == (LevelView { title: title@, ..old(self)@ }),
    {
        self.title = title;
    }

    /// Moves the player to the given position, counting a step when the
    /// position changes.
    fn move_player(&mut self, pos: Position)
        requires
            old(self).wf(),
            old(self)@.steps < i32::MAX,
        ensures
            final(self).wf(),
            final(self)@ == (if pos != old(self)@.player {
                LevelView { player: pos, steps: old(self)@.steps + 1, ..old(self)@ }
            } else {
                old(self)@
            }),
    {
        if pos != self.player {
            self.player = pos;
            self.steps = self.steps + 1;
        }
    }

    /// Moves a box from a position to another position; nothing happens
    /// when there is no box at `from`.
    fn move_box(&mut self, from: &Position, to: Position)
        requires
            old(self).wf(),
        ensures
            final(self).wf(),
            final(self)@ == (if old(self)@.boxes.contains(*from) {
                LevelView { boxes: old(self)@.boxes.remove(*from).insert(to), ..old(self)@ }
            } else {
                old(self)@
            }),
    {
        let mut i: usize = 0;
        while i < self.boxes.len()
            invariant
                i <= self.boxes.len(),
                *self == *old(self),
                self.wf(),
                forall|j: int| 0 <= j < i ==> self.boxes@[j] != *from,
            decreases self.boxes.len() - i,
        {
            if self.boxes[i] == *from {
                let ghost before = self.boxes@;
                self.boxes.remove(i);
                proof {
                    lemma_remove_unique(before, i as int);
                }
                insert_position(&mut self.boxes, to);
                return;
            }
            i = i + 1;
        }
    }
}

/// Removing the element at `i` from a sequence without duplicates removes
/// exactly that element from its set.
proof fn lemma_remove_unique(s: Seq<Position>, i: int)
    requires
        s.no_duplicates(),
        0 <= i < s.len(),
    ensures
        s.remove(i).no_duplicates(),
        s.remove(i).to_set() == s.to_set().remove(s[i]),
{
    let r = s.remove(i);
    assert forall|a: int, b: int| 0 <= a < b < r.len() implies r[a] != r[b] by {
        let a2 = if a < i { a } else { a + 1 };
        let b2 = if b < i { b } else { b + 1 };
        assert(r[a] == s[a2] && r[b] == s[b2]);
    }
    assert forall|x: Position| #[trigger] r.contains(x) <==> (s.contains(x) && x != s[i]) by {
        if r.contains(x) {
            let k = choose|k: int| 0 <= k < r.len() && r[k] == x;
            let k2 = if k < i { k } else { k + 1 };
            assert(s[k2] == x);
        }
        if s.contains(x) && x != s[i] {
            let k = choose|k: int| 0 <= k < s.len() && s[k] == x;
            if k < i {
                assert(r[k] == x);
            } else {
                assert(r[k - 1] == x);
            }
        }
    }
    assert(r.to_set() =~= s.to_set().remove(s[i]));
}


/// Reports a character of a level's text that the grammar does not know,
/// with the position at which it stands.
#[derive(Copy, Clone, Debug, PartialEq, Eq, Structural)]
pub struct InvalidChar(pub char, pub Position);

/// What a character of a level's text stands for.
#[derive(Copy, Clone, Debug, PartialEq, Eq, Structural)]
pub enum Symbol {
    /// `#`
    Wall,
    /// `.`
    Square,
    /// `$`
    Box,
    /// `@`
    Player,
    /// `+`
    PlayerOnSquare,
    /// `*`
    BoxOnSquare,
    /// a space
    Floor,
    /// a line break, which ends the current row
    Newline,
    /// any other character
    Invalid(char),
}

/// The symbol that character `c` stands for.
pub open spec fn symbol_of(c: char) -> Symbol {
    if c == '#' {
        Symbol::Wall
    } else if c == '.' {
        Symbol::Square
    } else if c == '$' {
        Symbol::Box
    } else if c == '@' {
        Symbol::Player
    } else if c == '+' {
        Symbol::PlayerOnSquare
    } else if c == '*' {
        Symbol::BoxOnSquare
    } else if c == ' ' {
        Symbol::Floor
    } else if c == '\n' {
        Symbol::Newline
    } else {
        Symbol::Invalid(c)
    }
}

/// Returns the symbol that character `c` stands for.
pub fn classify(c: char) -> (r: Symbol)
    ensures
        r == symbol_of(c),
{
    match c {
        '#' => Symbol::Wall,
        '.' => Symbol::Square,
        '$' => Symbol::Box,
        '@' => Symbol::Player,
        '+' => Symbol::PlayerOnSquare,
        '*' => Symbol::BoxOnSquare,
        ' ' => Symbol::Floor,
        '\n' => Symbol::Newline,
        _ => Symbol::Invalid(c),
    }
}

/// The state of a scan of a level's text after some of its characters.
pub struct ScanView {
    pub row: int,
    pub col: int,
    pub player: Position,
    pub walls: Set<Position>,
    pub boxes: Set<Position>,
    pub squares: Set<Position>,
}

impl ScanView {
    /// The state before the first character.
    pub open spec fn start() -> ScanView {
        ScanView {
            row: 0,
            col: 0,
            player: Position { row: 0, col: 0 },
            walls: Set::empty(),
            boxes: Set::empty(),
            squares: Set::empty(),
        }
    }

    /// The position of the next character.
    pub open spec fn here(self) -> Position {
        Position { row: self.row as i32, col: self.col as i32 }
    }

    /// The state after one more character `c`, or the error it raises.
    pub open spec fn feed(self, c: char) -> Result<ScanView, InvalidChar> {
        let pos = self.here();
        let next = ScanView { col: self.col + 1, ..self };
        match symbol_of(c) {
            Symbol::Newline => Ok(ScanView { row: self.row + 1, col: 0, ..self }),
            Symbol::Wall => Ok(ScanView { walls: self.walls.insert(pos), ..next }),
            Symbol::Square => Ok(ScanView { squares: self.squares.insert(pos), ..next }),
            Symbol::Box => Ok(ScanView { boxes: self.boxes.insert(pos), ..next }),
            Symbol::Player => Ok(ScanView { player: pos, ..next }),
            Symbol::PlayerOnSquare => Ok(
                ScanView { player: pos, squares: self.squares.insert(pos), ..next },
            ),
            Symbol::BoxOnSquare => Ok(
                ScanView {
                    boxes: self.boxes.insert(pos),
                    squares: self.squares.insert(pos),
                    ..next
                },
            ),
            Symbol::Floor => Ok(next),
            Symbol::Invalid(c) => Err(InvalidChar(c, pos)),
        }
    }
}

/// The scan of the whole text `s`: the state after its last character, or
/// the error raised by its first invalid one.
pub open spec fn scan(s: Seq<char>) -> Result<ScanView, InvalidChar>
    decreases s.len(),
{
    if s.len() == 0 {
        Ok(ScanView::start())
    } else {
        match scan(s.drop_last()) {
            Ok(st) => st.feed(s.last()),
            Err(e) => Err(e),
        }
    }
}

/// Everything a level shows on its grid: walls, targets, boxes and the player.
pub open spec fn features(
    player: Position,
    walls: Set<Position>,
    boxes: Set<Position>,
    squares: Set<Position>,
) -> Set<Position> {
    walls.union(squares).union(boxes).insert(player)
}

/// `c` is the greatest column of the positions in `s`.
pub open spec fn is_last_column(s: Set<Position>, c: int) -> bool {
    &&& exists|p: Position| s.contains(p) && p.col == c
    &&& forall|p: Position| s.contains(p) ==> p.col <= c
}

/// `r` is the greatest row of the positions in `s`.
pub open spec fn is_last_row(s: Set<Position>, r: int) -> bool {
    &&& exists|p: Position| s.contains(p) && p.row == r
    &&& forall|p: Position| s.contains(p) ==> p.row <= r
}

/// The level described by the text `s`, or the error of its first invalid
/// character. Its extents are one past the greatest column and row of its
/// features; it has no title and no steps.
pub open spec fn parse_level(s: Seq<char>) -> Result<LevelView, InvalidChar> {
    match scan(s) {
        Err(e) => Err(e),
        Ok(st) => {
            let all = features(st.player, st.walls, st.boxes, st.squares);
            Ok(
                LevelView {
                    title: Seq::empty(),
                    player: st.player,
                    steps: 0,
                    walls: st.walls,
                    boxes: st.boxes,
                    squares: st.squares,
                    extents: (
                        (choose|c: int| is_last_column(all, c)) + 1,
                        (choose|r: int| is_last_row(all, r)) + 1,
                    ),
                },
            )
        },
    }
}

/// Once the scan of a prefix fails, the scan of the whole text fails with
/// the same error.
proof fn lemma_scan_error_sticks(s: Seq<char>, n: int)
    requires
        0 <= n <= s.len(),
        scan(s.take(n)) is Err,
    ensures
        scan(s) == scan(s.take(n)),
    decreases s.len(),
{
    if n == s.len() {
        assert(s.take(n) =~= s);
    } else {
        assert(s.drop_last().take(n) =~= s.take(n));
        lemma_scan_error_sticks(s.drop_last(), n);
    }
}

/// `p` comes before the cell at row `row` and column `col` in reading order.
pub open spec fn is_before(p: Position, row: int, col: int) -> bool {
    p.row < row || (p.row == row && p.col < col)
}

/// Every cell that a scan has filled comes before the cell it stands on, and
/// each cell holds a single symbol: no wall shares its cell with a box or a
/// target square.
proof fn lemma_scan_apart(s: Seq<char>)
    requires
        s.len() <= i32::MAX,
        scan(s) is Ok,
    ensures
        ({
            let st = scan(s)->Ok_0;
            &&& 0 <= st.row && 0 <= st.col && st.row + st.col <= s.len()
            &&& forall|p: Position| #[trigger] st.walls.contains(p) ==> is_before(p, st.row, st.col)
            &&& forall|p: Position| #[trigger] st.boxes.contains(p) ==> is_before(p, st.row, st.col)
            &&& forall|p: Position| #[trigger] st.squares.contains(p) ==> is_before(p, st.row, st.col)
            &&& st.walls.disjoint(st.boxes)
            &&& st.walls.disjoint(st.squares)
        }),
    decreases s.len(),
{
    if s.len() > 0 {
        lemma_scan_apart(s.drop_last());
        let prev = scan(s.drop_last())->Ok_0;
        assert(prev.here().row == prev.row && prev.here().col == prev.col);
    }
}

/// In every state reached by moves from a level built from text, no box
/// shares its cell with a wall.
pub proof fn lemma_reachable_states_keep_walls_apart(s: Seq<char>, dirs: Seq<Direction>)
    requires
        s.len() <= i32::MAX,
        parse_level(s) is Ok,
    ensures
        ({
            let v = parse_level(s)->Ok_0.after(dirs);
            v.walls.disjoint(v.boxes)
        }),
{
    lemma_scan_apart(s);
    lemma_walls_and_boxes_stay_apart(parse_level(s)->Ok_0, dirs);
}

/// Widens the greatest column `w` and row `h` seen so far by the positions of `v`.
fn widen_extents(v: &Vec<Position>, w: i32, h: i32) -> (r: (i32, i32))
    ensures
        r.0 == w || exists|j: int| 0 <= j < v@.len() && v@[j].col == r.0,
        r.1 == h || exists|j: int| 0 <= j < v@.len() && v@[j].row == r.1,
        w <= r.0,
        h <= r.1,
        forall|j: int| 0 <= j < v@.len() ==> v@[j].col <= r.0 && v@[j].row <= r.1,
{
    let (mut cw, mut ch) = (w, h);
    let mut i: usize = 0;
    while i < v.len()
        invariant
            i <= v.len(),
            cw == w || exists|j: int| 0 <= j < v@.len() && v@[j].col == cw,
            ch == h || exists|j: int| 0 <= j < v@.len() && v@[j].row == ch,
            w <= cw,
            h <= ch,
            forall|j: int| 0 <= j < i ==> v@[j].col <= cw && v@[j].row <= ch,
        decreases v.len() - i,
    {
        if v[i].col > cw {
            cw = v[i].col;
        }
        if v[i].row > ch {
            ch = v[i].row;
        }
        i = i + 1;
    }
    (cw, ch)
}

impl Level {
    /// Builds a level from its text: one row per line, one character per
    /// column, `#` a wall, `.` a target square, `$` a box, `@` the player,
    /// `+` the player on a target square, `*` a box on a target square and a
    /// space the floor. The first other character is reported with its
    /// position. Without `@` or `+` the player stands at row 0, column 0.
    pub fn from_str(s: &str) -> (r: Result<Level, InvalidChar>)
        requires
            s@.len() <= i32::MAX,
        ensures
            match r {
                Ok(level) => {
                    &&& level.wf()
                    &&& parse_level(s@) == Ok::<LevelView, InvalidChar>(level@)
                    &&& level@.walls.disjoint(level@.boxes)
                    &&& level@.walls.disjoint(level@.squares)
                },
                Err(e) => parse_level(s@) == Err::<LevelView, InvalidChar>(e),
            },
    {
        let mut player = Position { row: 0, col: 0 };
        let mut walls: Vec<Position> = Vec::new();
        let mut boxes: Vec<Position> = Vec::new();
        let mut squares: Vec<Position> = Vec::new();
        let mut row: i32 = 0;
        let mut col: i32 = 0;
        proof {
            assert(s@.take(0) =~= Seq::<char>::empty());
            assert(walls@.to_set() =~= Set::<Position>::empty());
        }
        for c in it: s.chars()
            invariant
                it.seq() == s@,
                s@.len() <= i32::MAX,
                0 <= row,
                0 <= col,
                row + col <= it.index(),
                walls@.no_duplicates(),
                boxes@.no_duplicates(),
                squares@.no_duplicates(),
                player.row < i32::MAX && player.col < i32::MAX,
                forall|j: int| 0 <= j < walls@.len() ==> walls@[j].row < i32::MAX && walls@[j].col < i32::MAX,
                forall|j: int| 0 <= j < boxes@.len() ==> boxes@[j].row < i32::MAX && boxes@[j].col < i32::MAX,
                forall|j: int| 0 <= j < squares@.len() ==> squares@[j].row < i32::MAX && squares@[j].col < i32::MAX,
                scan(s@.take(it.index() as int)) == Ok::<ScanView, InvalidChar>(
                    ScanView {
                        row: row as int,
                        col: col as int,
                        player,
                        walls: walls@.to_set(),
                        boxes: boxes@.to_set(),
                        squares: squares@.to_set(),
                    },
                ),
        {
            let ghost before = s@.take(it.index() as int);
            let pos = Position { row, col };
            let symbol = classify(c);
            proof {
                assert(s@.take(it.index() + 1).drop_last() =~= before);
            }
            match symbol {
                Symbol::Newline => {
                    row = row + 1;
                    col = 0;
                },
                Symbol::Invalid(ch) => {
                    proof {
                        lemma_scan_error_sticks(s@, it.index() + 1);
                    }
                    return Err(InvalidChar(ch, pos));
                },
                _ => {
                    match symbol {
                        Symbol::Wall => insert_position(&mut walls, pos),
                        Symbol::Square => insert_position(&mut squares, pos),
                        Symbol::Box => insert_position(&mut boxes, pos),
                        Symbol::Player => {
                            player = pos;
                        },
                        Symbol::PlayerOnSquare => {
                            player = pos;
                            insert_position(&mut squares, pos);
                        },
                        Symbol::BoxOnSquare => {
                            insert_position(&mut boxes, pos);
                            insert_position(&mut squares, pos);
                        },
                        _ => {},
                    }
                    col = col + 1;
                },
            }
        }
        proof {
            assert(s@.take(s@.len() as int) =~= s@);
            lemma_scan_apart(s@);
        }
        let (w1, h1) = widen_extents(&walls, player.col, player.row);
        let (w2, h2) = widen_extents(&squares, w1, h1);
        let (w, h) = widen_extents(&boxes, w2, h2);
        proof {
            let all = features(player, walls@.to_set(), boxes@.to_set(), squares@.to_set());
            assert forall|p: Position| all.contains(p) implies p.col <= w && p.row <= h by {
                if walls@.contains(p) {
                    let j = choose|j: int| 0 <= j < walls@.len() && walls@[j] == p;
                } else if squares@.contains(p) {
                    let j = choose|j: int| 0 <= j < squares@.len() && squares@[j] == p;
                } else if boxes@.contains(p) {
                    let j = choose|j: int| 0 <= j < boxes@.len() && boxes@[j] == p;
                }
            }
            if w == w2 {
                if w2 == w1 {
                    if w1 != player.col {
                        let j = choose|j: int| 0 <= j < walls@.len() && walls@[j].col == w1;
                        assert(walls@.contains(walls@[j]));
                        assert(all.contains(walls@[j]));
                    } else {
                        assert(all.contains(player));
                    }
                } else {
                    let j = choose|j: int| 0 <= j < squares@.len() && squares@[j].col == w2;
                    assert(squares@.contains(squares@[j]));
                    assert(all.contains(squares@[j]));
                }
            } else {
                let j = choose|j: int| 0 <= j < boxes@.len() && boxes@[j].col == w;
                assert(boxes@.contains(boxes@[j]));
                assert(all.contains(boxes@[j]));
            }
            if h == h2 {
                if h2 == h1 {
                    if h1 != player.row {
                        let j = choose|j: int| 0 <= j < walls@.len() && walls@[j].row == h1;
                        assert(walls@.contains(walls@[j]));
                        assert(all.contains(walls@[j]));
                    } else {
                        assert(all.contains(player));
                    }
                } else {
                    let j = choose|j: int| 0 <= j < squares@.len() && squares@[j].row == h2;
                    assert(squares@.contains(squares@[j]));
                    assert(all.contains(squares@[j]));
                }
            } else {
                let j = choose|j: int| 0 <= j < boxes@.len() && boxes@[j].row == h;
                assert(boxes@.contains(boxes@[j]));
                assert(all.contains(boxes@[j]));
            }
            assert(is_last_column(all, w as int));
            assert(is_last_row(all, h as int));
        }
        let level = Level {
            title: String::new(),
            player,
            steps: 0,
            walls,
            boxes,
            squares,
            width: w + 1,
            height: h + 1,
        };
        Ok(level)
    }
}

} // verus!
