pub mod api_form;
