pub mod csv_parser;
pub mod zabbix_parser;

pub use csv_parser::CsvParser;
pub use zabbix_parser::ZabbixParser;
