pub mod user_details;
