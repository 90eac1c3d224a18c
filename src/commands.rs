//! The key and command pairs offered in the command bar of each mode.

use vstd::prelude::*;

verus! {

/// The text of each key and command pair.
pub open spec fn pair_texts(pairs: Seq<(&str, &str)>) -> Seq<(Seq<char>, Seq<char>)> {
    pairs.map_values(|p: (&str, &str)| (p.0@, p.1@))
}

/// Return the normal mode key-command pairs, for a forest of `size` nodes
/// that has two roots to compare when `comparable` holds.
pub fn normal_mode_commands(size: usize, comparable: bool) -> (r: Vec<(&'static str, &'static str)>)
    ensures
        pair_texts(r@) == seq![("I"@, "Insert"@)]
            + (if size > 0 { seq![("S"@, "Select"@)] } else { Seq::empty() })
            + (if size > 0 && comparable { seq![("C"@, "Compare"@)] } else { Seq::empty() })
            + seq![("Q"@, "Quit"@)],
{
    let mut pairs = vec![("I", "Insert")];
    if size > 0 {
        pairs.push(("S", "Select"));
        if comparable {
            pairs.push(("C", "Compare"));
        }
    }
    pairs.push(("Q", "Quit"));
    proof {
        assert(pair_texts(pairs@) =~= seq![("I"@, "Insert"@)]
            + (if size > 0 { seq![("S"@, "Select"@)] } else { Seq::empty() })
            + (if size > 0 && comparable { seq![("C"@, "Compare"@)] } else { Seq::empty() })
            + seq![("Q"@, "Quit"@)]);
    }
    pairs
}

/// Return the input mode key-command pairs.
pub fn input_mode_commands(empty: bool) -> (r: Vec<(&'static str, &'static str)>)
    ensures
        pair_texts(r@) == if empty { Seq::empty() } else { seq![("Enter"@, "Submit"@)] },
{
    let r = if empty {
        Vec::new()
    } else {
        vec![("Enter", "Submit")]
    };
    proof {
        assert(pair_texts(r@) =~= if empty { Seq::empty() } else { seq![("Enter"@, "Submit"@)] });
    }
    r
}

/// Return the select mode key-command pairs.
pub fn select_mode_commands(size: usize) -> (r: Vec<(&'static str, &'static str)>)
    ensures
        pair_texts(r@) == (if size > 1 {
            seq![("0-9"@, "Jump"@), ("Bksp │ ↑"@, "Up"@), ("Space │ ↓"@, "Down"@)]
        } else {
            Seq::empty()
        }) + seq![("Enter"@, "Confirm"@)],
{
    let mut pairs = Vec::new();
    if size > 1 {
        pairs.push(("0-9", "Jump"));
        pairs.push(("Bksp │ ↑", "Up"));
        pairs.push(("Space │ ↓", "Down"));
    }
    pairs.push(("Enter", "Confirm"));
    proof {
        assert(pair_texts(pairs@) =~= (if size > 1 {
            seq![("0-9"@, "Jump"@), ("Bksp │ ↑"@, "Up"@), ("Space │ ↓"@, "Down"@)]
        } else {
            Seq::empty()
        }) + seq![("Enter"@, "Confirm"@)]);
    }
    pairs
}

} // verus!
