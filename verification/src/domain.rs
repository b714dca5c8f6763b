pub mod subscriber_name;
