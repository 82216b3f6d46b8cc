use vstd::prelude::*;

verus! {

/// Group id of the monitoring source for stations in service.
pub const STATUS_ATIVO: &'static str = "54";

/// Group id of the monitoring source for defective stations.
pub const STATUS_DEFEITO: &'static str = "48";

/// Group id of the monitoring source for available stations.
pub const STATUS_DISPONIVEL: &'static str = "122";

/// Group id of the monitoring source for nomadic stations.
pub const STATUS_NOMADICO: &'static str = "58";

/// Group id of the monitoring source for stations under litigation.
pub const STATUS_LITIGIO: &'static str = "120";

/// First prefix by which the token of a regional unit is known.
pub const REGIONAL_PREFIX_GR: &'static str = "GR";

/// Second prefix by which the token of a regional unit is known.
pub const REGIONAL_PREFIX_UO: &'static str = "UO";

/// Label under which stations without a regional unit are grouped.
pub const SEM_REGIONAL: &'static str = "SEM_REGIONAL";

} // verus!
