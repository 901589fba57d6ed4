pub mod ip_middle;
