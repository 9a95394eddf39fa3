pub mod braced;
pub mod item_like;
