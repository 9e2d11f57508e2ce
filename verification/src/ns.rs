//! Well-known namespace URIs.

use vstd::prelude::*;

verus! {

/// GML 2.x and 3.0/3.1 share this namespace.
pub const GML: &'static str = "http://www.opengis.net/gml";

pub const GML_32: &'static str = "http://www.opengis.net/gml/3.2";

pub const XLINK: &'static str = "http://www.w3.org/1999/xlink";

pub const XSI: &'static str = "http://www.w3.org/2001/XMLSchema-instance";

pub const WFS: &'static str = "http://www.opengis.net/wfs";

pub const WFS_20: &'static str = "http://www.opengis.net/wfs/2.0";

pub const OWS: &'static str = "http://www.opengis.net/ows";

pub const OWS_11: &'static str = "http://www.opengis.net/ows/1.1";

pub const OGC: &'static str = "http://www.opengis.net/ogc";

pub const FES_20: &'static str = "http://www.opengis.net/fes/2.0";

/// Presence on the root element marks FME-produced GML (axis-order quirk).
pub const FME: &'static str = "http://www.safe.com/gml/fme";

/// The namespace the `xml` prefix is bound to.
pub const XML: &'static str = "http://www.w3.org/XML/1998/namespace";

} // verus!
