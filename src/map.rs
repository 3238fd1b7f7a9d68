use vstd::prelude::*;

verus! {

/// What a cell of the map is made of.
#[derive(Debug, Clone, Copy, PartialEq, Eq, Structural)]
pub enum Material {
    R,
    G,
    B,
    Empty,
}

/// The material that a map character stands for; any other character is empty.
pub open spec fn material_spec(c: char) -> Material {
    if c == 'R' {
        Material::R
    } else if c == 'G' {
        Material::G
    } else if c == 'B' {
        Material::B
    } else {
        Material::Empty
    }
}

/// Reads one map character.
pub fn material_of(c: char) -> (m: Material)
    ensures
        m == material_spec(c),
{
    match c {
        'E' => Material::Empty,
        'R' => Material::R,
        'G' => Material::G,
        'B' => Material::B,
        _ => Material::Empty,
    }
}

/// The row of cells that a line of the map file describes, one per character.
pub open spec fn row_spec(line: Seq<char>) -> Seq<Material> {
    Seq::new(line.len(), |i: int| material_spec(line[i]))
}

/// A character that names no material reads as an empty cell, the same as `'E'`.
pub proof fn lemma_unknown_is_empty(c: char)
    requires
        c != 'R',
        c != 'G',
        c != 'B',
    ensures
        material_spec(c) == material_spec('E'),
        material_spec(c) == Material::Empty,
{
}

/// Reads one line of the map file into a row of cells.
pub fn parse_row(line: &str) -> (row: Vec<Material>)
    ensures
        row@ == row_spec(line@),
{
    let n = line.unicode_len();
    let mut row: Vec<Material> = Vec::new();
    let mut i: usize = 0;
    while i < n
        invariant
            n == line@.len(),
            i <= n,
            row@.len() == i,
            forall|j: int| 0 <= j < i ==> row@[j] == material_spec(#[trigger] line@[j]),
        decreases n - i,
    {
        let c = line.get_char(i);
        row.push(material_of(c));
        i = i + 1;
    }
    assert(row@ == row_spec(line@));
    row
}

/// Reads the lines of a map file into a grid of cells, the first line on top.
pub fn parse_map(lines: &Vec<String>) -> (grid: Vec<Vec<Material>>)
    ensures
        grid@.len() == lines@.len(),
        forall|y: int| 0 <= y < lines@.len() ==> (#[trigger] grid@[y])@ == row_spec(lines@[y]@),
{
    let mut grid: Vec<Vec<Material>> = Vec::new();
    let mut y: usize = 0;
    while y < lines.len()
        invariant
            y <= lines@.len(),
            grid@.len() == y,
            forall|j: int| 0 <= j < y ==> (#[trigger] grid@[j])@ == row_spec(lines@[j]@),
        decreases lines@.len() - y,
    {
        grid.push(parse_row(lines[y].as_str()));
        y = y + 1;
    }
    grid
}

} // verus!
