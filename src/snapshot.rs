use vstd::prelude::*;
use crate::grid::SandBox;
use crate::model::{in_grid, Config};

verus! {

/// The line that opens each snapshot of the grid.
pub const SNAPSHOT_HEADER: &'static str = "---- SAND BOX STATE ----";

/// The ASCII digit for a height below ten.
pub open spec fn digit(h: int) -> u8 {
    (48 + h) as u8
}

/// One line of a snapshot: a digit per cell, then a newline.
pub open spec fn row_text(r: Seq<int>) -> Seq<u8> {
    r.map_values(|h: int| digit(h)).push(10u8)
}

/// The lines of a snapshot, row by row.
pub open spec fn grid_text(c: Config) -> Seq<u8>
    decreases c.len(),
{
    if c.len() == 0 {
        Seq::empty()
    } else {
        grid_text(c.drop_last()) + row_text(c.last())
    }
}

/// Every height fits in one decimal digit.
pub open spec fn printable(c: Config) -> bool {
    forall|i: int, j: int| in_grid(c.len() as int, i, j) ==> #[trigger] c[i][j] < 10
}

/// The rows of the grid as lines of digits; `None` where a height needs two digits or more.
pub fn render(sand_box: &SandBox) -> (r: Option<Vec<u8>>)
    requires
        sand_box.wf(),
    ensures
        r is Some <==> printable(sand_box@),
        r matches Some(b) ==> b@ == grid_text(sand_box@),
{
    let ghost c = sand_box@;
    let n = sand_box.size();
    proof {
        sand_box.lemma_view_is_config();
    }
    let mut out: Vec<u8> = Vec::new();
    let mut i: usize = 0;
    while i < n
        invariant
            sand_box.wf(),
            c == sand_box@,
            n == c.len(),
            i <= n,
            forall|p: int| 0 <= p < n ==> #[trigger] c[p].len() == n,
            forall|a: int, b: int| 0 <= a < n && 0 <= b < n ==> #[trigger] c[a][b] >= 0,
            forall|a: int, b: int| 0 <= a < i && 0 <= b < n ==> #[trigger] c[a][b] < 10,
            out@ == grid_text(c.take(i as int)),
        decreases n - i,
    {
        let ghost start = out@;
        let mut j: usize = 0;
        while j < n
            invariant
                sand_box.wf(),
                c == sand_box@,
                n == c.len(),
                i < n,
                j <= n,
                c[i as int].len() == n,
                forall|a: int, b: int| 0 <= a < n && 0 <= b < n ==> #[trigger] c[a][b] >= 0,
                forall|b: int| 0 <= b < j ==> #[trigger] c[i as int][b] < 10,
                out@ == start + c[i as int].take(j as int).map_values(|h: int| digit(h)),
            decreases n - j,
        {
            let h = sand_box.height(i, j);
            if h >= 10 {
                return None;
            }
            out.push(48u8 + h as u8);
            assert(c[i as int].take(j + 1) =~= c[i as int].take(j as int).push(c[i as int][j as int]));
            j = j + 1;
        }
        out.push(10u8);
        assert(c[i as int].take(n as int) =~= c[i as int]);
        assert(c.take(i + 1).drop_last() =~= c.take(i as int));
        i = i + 1;
    }
    assert(c.take(n as int) =~= c);
    Some(out)
}

} // verus!
