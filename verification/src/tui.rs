use vstd::prelude::*;

verus! {

/// The keys the dashboard reacts to.
#[derive(Debug, Clone, Copy, PartialEq, Eq, Structural)]
pub enum DashboardKey {
    /// `q` or Escape.
    Quit,
    /// Down arrow or `j`.
    Down,
    /// Up arrow or `k`.
    Up,
    /// `d` or Delete.
    Delete,
    /// Any other key.
    Other,
}

/// What the dashboard does after a key.
#[derive(Debug, Clone, Copy, PartialEq, Eq, Structural)]
pub enum DashboardAction {
    /// Leave the dashboard.
    Quit,
    /// Delete the command shown in this row.
    Delete(usize),
    /// Nothing beyond the new selection.
    Stay,
}

/// The selected row once the table holds `len` rows: none for an empty
/// table, else the selection moved back onto the last row if it fell off.
pub open spec fn clamp_selection_spec(selected: Option<usize>, len: usize) -> Option<usize> {
    if len == 0 {
        None
    } else {
        match selected {
            Some(i) => if i >= len {
                Some((len - 1) as usize)
            } else {
                Some(i)
            },
            None => None,
        }
    }
}

/// Keep the selection within a table of `len` rows.
pub fn clamp_selection(selected: Option<usize>, len: usize) -> (r: Option<usize>)
    ensures
        r == clamp_selection_spec(selected, len),
{
    if len == 0 {
        None
    } else {
        match selected {
            Some(i) => if i >= len {
                Some(len - 1)
            } else {
                Some(i)
            },
            None => None,
        }
    }
}

/// The selection and action after `key` on a table of `len` rows: Down
/// and Up move one row and wrap around at the ends (from no selection they
/// go to the first row), Delete deletes the selected row, Quit leaves.
pub open spec fn dashboard_step_spec(selected: Option<usize>, len: usize, key: DashboardKey) -> (
    Option<usize>,
    DashboardAction,
) {
    match key {
        DashboardKey::Quit => (selected, DashboardAction::Quit),
        DashboardKey::Down => if len == 0 {
            (selected, DashboardAction::Stay)
        } else {
            match selected {
                Some(i) => if i >= len - 1 {
                    (Some(0usize), DashboardAction::Stay)
                } else {
                    (Some((i + 1) as usize), DashboardAction::Stay)
                },
                None => (Some(0usize), DashboardAction::Stay),
            }
        },
        DashboardKey::Up => if len == 0 {
            (selected, DashboardAction::Stay)
        } else {
            match selected {
                Some(i) => if i == 0 {
                    (Some((len - 1) as usize), DashboardAction::Stay)
                } else {
                    (Some((i - 1) as usize), DashboardAction::Stay)
                },
                None => (Some(0usize), DashboardAction::Stay),
            }
        },
        DashboardKey::Delete => match selected {
            Some(i) => if i < len {
                (selected, DashboardAction::Delete(i))
            } else {
                (selected, DashboardAction::Stay)
            },
            None => (selected, DashboardAction::Stay),
        },
        DashboardKey::Other => (selected, DashboardAction::Stay),
    }
}

/// Handle one key of the dashboard.
pub fn dashboard_step(selected: Option<usize>, len: usize, key: DashboardKey) -> (r: (
    Option<usize>,
    DashboardAction,
))
    ensures
        r == dashboard_step_spec(selected, len, key),
{
    match key {
        DashboardKey::Quit => (selected, DashboardAction::Quit),
        DashboardKey::Down => if len == 0 {
            (selected, DashboardAction::Stay)
        } else {
            match selected {
                Some(i) => if i >= len - 1 {
                    (Some(0), DashboardAction::Stay)
                } else {
                    (Some(i + 1), DashboardAction::Stay)
                },
                None => (Some(0), DashboardAction::Stay),
            }
        },
        DashboardKey::Up => if len == 0 {
            (selected, DashboardAction::Stay)
        } else {
            match selected {
                Some(i) => if i == 0 {
                    (Some(len - 1), DashboardAction::Stay)
                } else {
                    (Some(i - 1), DashboardAction::Stay)
                },
                None => (Some(0), DashboardAction::Stay),
            }
        },
        DashboardKey::Delete => match selected {
            Some(i) => if i < len {
                (selected, DashboardAction::Delete(i))
            } else {
                (selected, DashboardAction::Stay)
            },
            None => (selected, DashboardAction::Stay),
        },
        DashboardKey::Other => (selected, DashboardAction::Stay),
    }
}

/// On a non-empty table, moving from a row of the table (or from no
/// selection) selects a row of the table.
pub proof fn lemma_navigation_stays_in_table(selected: Option<usize>, len: usize, key: DashboardKey)
    requires
        len > 0,
        selected matches Some(i) ==> i < len,
        key == DashboardKey::Up || key == DashboardKey::Down,
    ensures
        dashboard_step_spec(selected, len, key).0 matches Some(i) && i < len,
{
}

/// Down then Up, on a non-empty table with a row selected, comes back to it.
pub proof fn lemma_down_then_up_returns(i: usize, len: usize)
    requires
        i < len,
    ensures
        dashboard_step_spec(
            dashboard_step_spec(Some(i), len, DashboardKey::Down).0,
            len,
            DashboardKey::Up,
        ).0 == Some(i),
{
}

} // verus!
