//! Game statistics replies: the text work of the commands that look up
//! prices, experience tables and hiscores. Fetching and parsing the data is
//! the host's; what is made of it is decided here.

pub mod bosses;
pub mod ge;
pub mod items;
pub mod numbers;
pub mod params;
pub mod players;
pub mod prices;
