pub mod open_grid_laws;
pub mod room_laws;
pub mod row_geometry;
pub mod shadow_casting;
pub mod visibility_laws;
