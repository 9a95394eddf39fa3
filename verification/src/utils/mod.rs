pub mod render;
pub mod stack;

pub use render::{
    render_closing_tag, render_empty_element, render_eopening_tag,
    render_escaped_double_quoted_attribute_value, render_escaped_html_text, write_usize,
};
