//! Small helpers for export front ends.

use vstd::prelude::*;

verus! {

/// Map a value within `[lowest_value, highest_value]` to a red-to-green
/// colour: the range is split into 25 categories, and the value's category
/// fixes the red share, with green as its complement. The range must be
/// wide enough for a positive category width, and the value's category must
/// not exceed the category count — the exact conditions under which the
/// formula stays within colour range.
pub fn map_value_to_color(value: u64, lowest_value: u64, highest_value: u64) -> (r: (u8, u8, u8))
    requires
        lowest_value <= value <= highest_value,
        (highest_value - lowest_value) / 25 >= 1,
        (value - lowest_value) as int / ((highest_value - lowest_value) as int / 25) <= 25,
    ensures
        ({
            let category = (value - lowest_value) as int / ((highest_value - lowest_value) as int
                / 25);
            &&& r.0 == category * 255 / 25
            &&& r.1 == 255 - category * 255 / 25
            &&& r.2 == 0
        }),
{
    // Define the number of color categories
    let num_categories: u64 = 25;

    // Calculate the value range per category
    let value_range = (highest_value - lowest_value) / num_categories;

    // Calculate the category index based on the value
    let category_index = (value - lowest_value) / value_range;

    proof {
        assert(category_index * 255 <= 25 * 255) by (nonlinear_arith)
            requires
                0 <= category_index <= 25,
        ;
    }

    // Calculate the RGB components based on the category index
    let red = (category_index * 255) / num_categories;
    let green = 255 - ((category_index * 255) / num_categories);

    (red as u8, green as u8, 0)
}

} // verus!
