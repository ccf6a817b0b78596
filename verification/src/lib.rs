//! The settlement simulation's decision core.

pub mod answers;
pub mod asks;
pub mod attention;
pub mod autonomy;
pub mod camp;
pub mod clock;
pub mod compliance;
pub mod constants;
pub mod economy;
pub mod ledger;
pub mod lens;
pub mod meters;
pub mod needs;
pub mod people;
pub mod stores;
pub mod sim;
pub mod text;
pub mod traits;
