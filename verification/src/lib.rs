pub mod deploy;
pub mod deploy_form;
pub mod deployments;
pub mod discovery;
pub mod device_fields;
pub mod collector;
pub mod dns_checks;
pub mod domain_inventory;
pub mod domain_names;
pub mod domain_panel;
pub mod domain_policy;
pub mod domain_probe;
pub mod guest_actions;
pub mod guest_list;
pub mod json;
pub mod maintenance;
pub mod monitoring_inventory;
pub mod monitoring_panel;
pub mod navigation;
pub mod onboarding;
pub mod signoz;
pub mod sorting;
pub mod split;
pub mod storage_tiers;
pub mod text;
