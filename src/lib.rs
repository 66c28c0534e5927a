//! Short-circuit impedances in three-phase a.c. systems.
//!
//! The library holds the discrete part of the IEC 60909 method: voltage
//! bands and their correction factors, the busbar index, the numbering of
//! electrical nodes, the stamping of element admittances into a nodal
//! admittance matrix, and the factor-once / solve-per-node extraction of the
//! driving-point impedances.
//!
//! Voltages are whole volts and correction factors whole per cent. Matrix
//! values are of any `Copy` type chosen by the caller; the library moves
//! them but computes nothing with them.
mod assembly;
mod busbar;
mod correction;
mod engine;
mod nodes;
mod topology;

pub use assembly::{
    admittances_match, assemble, assembled, branches, branches_of, lemma_assembled_error_persists,
    lemma_assembled_ok_iff, lemma_assembled_same_numbering, lemma_assembly_repeatable,
    lemma_unusable_element_fails, series_branches, series_stamp, shunt_branches, stamp,
    star_branches, star_of, station_branches, winding_admittance, Admittances, Branch, ElementKind,
    Entry, ImpedanceError, NetworkError, Terminal,
};
pub use busbar::{
    busbar_groups, c_or_default, contains_label, effective_cmax, labels_of, last_group_of,
    lemma_last_group_of, Busbar, BusbarIndex,
};
pub use correction::{
    correction_factor_spec, lemma_correction_factor_monotonic, level_of, voltage_correction_factor,
    voltage_level, VoltageLevel, LV_UPPER_LIMIT, MV_UPPER_LIMIT,
};
pub use engine::{fails_at, impedance_diagonal, solved_at, unit, unit_vector};
pub use nodes::{fresh_labels, lemma_fresh_labels, node_of, topology_size, NodeIndex};
pub use topology::{
    branch_labels, station_labels, winding_labels, BranchNodes, StationNodes, Topology,
    WindingNodes,
};
