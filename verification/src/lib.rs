//! Clock, calendar and planner rules for OziClock.

use vstd::prelude::*;

pub mod clock;
pub mod text;
pub mod ids;
pub mod planner;
pub mod keyed;
pub mod commands;
pub mod calendar;
pub mod inputs;
pub mod models;
pub mod lanes;
pub mod instant;
pub mod sorting;
pub mod timer_time;
pub mod task_time;
pub mod event_time;
pub mod views;
pub mod sync;
pub mod settings;
pub mod zoned;
pub mod reminder_time;
pub mod alarm_time;
pub mod rows;
pub mod plan_week;
pub mod day_items;
pub mod colors;
pub mod clock_views;
pub mod attention;
pub mod editors;

verus! {

/// Product name shared by all front ends.
pub const PRODUCT_NAME: &'static str = "OziClock";

/// Returns the product name.
pub fn application_name() -> (name: &'static str)
    ensures
        name@ == PRODUCT_NAME@,
{
    PRODUCT_NAME
}

} // verus!
