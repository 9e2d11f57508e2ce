# xeibe

Streaming reading of GML (and WFS responses) as a verified Verus library.

`src/` holds the logic, each function with its contract proved by Verus:

- `splitter`, `scan`, `chunk`, `attributes`: the feature-boundary splitter.
  It is fed the decoded input piece by piece and hands out chunks. Each
  step's effect is stated: a start tag under an element that a member rule
  names is a feature (its own declarations stay in its bytes), the root
  start tag gives the header, an end tag must close the innermost element,
  a member without a child is counted as a reference, and the errors are
  stated with their causes. A chunk is whole elements copied as written, in
  stream order, numbered on without gaps, with the namespace declarations in
  scope, kept under the target size but for its last element; a read ends
  only on a complete document (an input that ends inside the root element
  is an XML error, one without features `NoFeatures`).
- `reader`: the namespace-aware XML event reader on `quick-xml`: merged
  text, the predefined entities only, attributes by qualified name, located
  errors; a DOCTYPE is reported as an error.
- `row`, `element`: a feature's row: the start tag of a routed element
  (anchors counted, `xsi:nil`, attributes to their targets), values put
  once per feature or once per occurrence of a list's anchor, and the
  commit (feature errors by policy, list columns padded, missing values).
- `wkb`: the layout of a WKB value (type, Z/M, coordinate runs) for
  GeoParquet output.
- `namespace`, `qname`, `ns`: names matched by namespace URI, not prefix.
- `version`: the GML version from the evidence a document gives.
- `decode`, `archive`, `glob`, `source`: what a stream is (compression,
  encoding), which zip members are read, how paths, directories and globs
  expand.
- `value`: text to typed values in XML Schema's lexical forms.
- `pipeline`, `route`, `settings`, `feature`, `report`, `overflow`,
  `args`: the decisions of a read and of the command line; `feature` also
  gathers a subtree's text and its `path → text` pairs from the reader.
- `text`, `location`, `error`: strings, positions and errors.

`app/` is the ordinary Rust around it: opening files and archives,
decompression and transcoding, walking directories, feeding the splitter
from a reader, the command-line arguments for `clap`, and the floating-point
parts (numbers read from text, the bounding box of WKB coordinates).

`tests/` runs the library on concrete inputs.
