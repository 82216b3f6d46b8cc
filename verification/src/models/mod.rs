pub mod common;
pub mod sharepoint;
pub mod zabbix;

pub use common::{DataSource, EstacaoInfo, Regional, Status, TipoEstacao};
pub use sharepoint::SharePointRecord;
pub use zabbix::{ZabbixGroup, ZabbixHost, ZabbixResponse};
