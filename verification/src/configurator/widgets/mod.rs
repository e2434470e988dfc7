pub mod optional_setting;
