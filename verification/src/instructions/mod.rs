//! The builders for the eight commands.
mod add;
mod add_ptr;
mod get;
mod put;
mod while_loop;

pub use add::add_ops;
pub use add::build_add;
pub use add_ptr::add_ptr_ops;
pub use add_ptr::build_add_ptr;
pub use get::build_get;
pub use get::get_ops;
pub use get::store_input;
pub use get::store_ops;
pub use put::build_put;
pub use put::put_ops;
pub use while_loop::build_while_end;
pub use while_loop::build_while_start;
pub use while_loop::close_ops;
pub use while_loop::loop_depth;
pub use while_loop::open_ops;
pub use while_loop::WhileBlock;
