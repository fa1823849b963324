pub mod boxed_get;
pub mod data_stack;
pub mod slice_reader;
pub mod static_data;
pub mod token_stream;
pub mod vec_push;
