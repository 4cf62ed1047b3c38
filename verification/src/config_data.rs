pub mod home;
