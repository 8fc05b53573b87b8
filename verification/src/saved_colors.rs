use vstd::prelude::*;

verus! {

/// The number of columns in which the palette is laid out.
pub const PALETTE_COLUMNS: usize = 12;

/// How a toolbar toggle looks.
#[derive(Clone, Copy, Debug)]
pub struct ButtonLook {
    pub tooltip: &'static str,
    pub icon: Option<&'static str>,
    pub active: bool,
}

/// The favorite button offers to remove the current color if it is a
/// favorite, else to add it.
pub fn favorite_button_look(is_favorite: bool) -> (look: ButtonLook)
    ensures
        look.active == is_favorite,
        look.tooltip@ == if is_favorite { "Remove favorite"@ } else { "Add favorite"@ },
        look.icon matches Some(icon) && icon@ == if is_favorite {
            "starred-symbolic"@
        } else {
            "non-starred-symbolic"@
        },
{
    if is_favorite {
        ButtonLook { tooltip: "Remove favorite", icon: Some("starred-symbolic"), active: true }
    } else {
        ButtonLook { tooltip: "Add favorite", icon: Some("non-starred-symbolic"), active: false }
    }
}

/// The palette button says whether the current color is already in the
/// palette; its icon stays as it is.
pub fn palette_button_look(in_palette: bool) -> (look: ButtonLook)
    ensures
        look.active == in_palette,
        look.tooltip@ == if in_palette { "Already in palette"@ } else { "Add to palette"@ },
        look.icon is None,
{
    if in_palette {
        ButtonLook { tooltip: "Already in palette", icon: None, active: true }
    } else {
        ButtonLook { tooltip: "Add to palette", icon: None, active: false }
    }
}

/// The column and row at which the palette shows its color at `index`:
/// left to right, then top to bottom.
pub fn palette_grid_cell(index: usize) -> (cell: (usize, usize))
    ensures
        cell.0 == index % PALETTE_COLUMNS,
        cell.1 == index / PALETTE_COLUMNS,
        cell.1 * PALETTE_COLUMNS + cell.0 == index,
        cell.0 < PALETTE_COLUMNS,
{
    (index % PALETTE_COLUMNS, index / PALETTE_COLUMNS)
}

} // verus!
