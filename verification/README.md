# mongodb-influxdb

A service that scrapes data documents out of a MongoDB collection at a fixed
interval and writes them to InfluxDB as line protocol, with a health socket
and a health check.

- `src/` is the library, verified with Verus: the line protocol (escaping,
  field values, data points, batches), the conversion of documents into data
  points and the freshness filter of a scrape, the shape of an InfluxDB write
  request and the reading of its status, the health message and the health
  check's verdict.
- `app/` is the program around it: command line, MongoDB queries, HTTP
  requests, the health socket, signals and task plumbing.
- `tests/` exercises the library.
