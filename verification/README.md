# cteepbd

Energy performance of buildings according to EN ISO 52000-1 and the Spanish building code
(CTE DB-HE), as a Verus library with a command line program around it.

- `src/`: the verified library. The data model (carriers, services, sources, energy
  components, building, zone and system needs, weighting factors, metadata), the plain text
  and XML formats of components and factors with their read-back laws, and the rules that
  complete and select them: normalizing and reducing weighting factors, factors by location,
  ordering components by system, choosing the components that a balance step uses, and a
  map of additional result values. Energy values are generic, so the formats read and
  write them as text.
- `app/`: the `cteepbd` program: command line, files, the energy balance itself (`f32`
  arithmetic), and the JSON, XML and plain text output of the results.
- `tests/`: tests of the library on concrete values.
