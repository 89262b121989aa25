pub mod sequences;
pub mod ids;
pub mod id_set;
pub mod geometry;
pub mod exact;
pub mod vector_data;
pub mod messages;
pub mod document;
pub mod selection;
pub mod shape_laws;
pub mod shape_state;
pub mod selection_laws;
pub mod deletion;
pub mod deletion_laws;
pub mod tool;
pub mod fresh_ids;
pub mod topology;
pub mod movement;
pub mod movement_laws;
pub mod handle_laws;
pub mod handles;
pub mod angles;
pub mod colinear;
pub mod pairing;
pub mod connectivity;
pub mod picking;
pub mod picking_laws;
pub mod segment;
pub mod region;
pub mod snapping;
pub mod paths;
pub mod morph;
pub mod morph_laws;
pub mod bevel;
pub mod bevel_run;
pub mod chamfer;
pub mod chamfer_laws;
pub mod cut_search;
pub mod corners;
pub mod subpath;
pub mod tangents;
pub mod rounding;
pub mod randomness;
pub mod jitter;
pub mod warp;
pub mod splitting;
pub mod polyline;
pub mod instancing;
pub mod instancing_laws;
pub mod style;
pub mod traversal;
pub mod measures;
pub mod sampling;
pub mod flatten;
pub mod lengths;
pub mod offset;
